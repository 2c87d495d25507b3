use block_monitor::block::{block_lines, decode_block, response_block_lines, summary_lines};
use block_monitor::error::BlockFetchErr;
use block_monitor::hex::{parse_hex_str, parse_hexa_value};
use block_monitor::json::{get_field, Json, JsonNumber};
use block_monitor::stats::collect_stats;

fn text(s: &str) -> Json {
    Json::Str(s.to_string())
}

fn uint(n: u64) -> Json {
    Json::Number(JsonNumber::Unsigned(n))
}

fn obj(members: Vec<(&str, Json)>) -> Json {
    Json::Object(members.into_iter().map(|(k, v)| (k.to_string(), v)).collect())
}

fn tx(fee: Option<&str>, kind: &str, version: &str) -> Json {
    let mut m = Vec::new();
    if let Some(f) = fee {
        m.push(("max_fee", text(f)));
    }
    m.push(("type", text(kind)));
    m.push(("version", text(version)));
    obj(m)
}

fn block_with(txs: Vec<Json>, skip: &str) -> Json {
    let members = vec![
        ("block_number", uint(640_000)),
        ("timestamp", uint(1_700_000_000)),
        ("block_hash", text("0xabc")),
        ("parent_hash", text("0xdef")),
        ("starknet_version", text("0.13.1")),
        ("status", text("ACCEPTED_ON_L2")),
        ("sequencer_address", text("0x1")),
        ("new_root", text("0x2")),
        ("l1_gas_price", obj(vec![("price_in_wei", text("0x3b9aca00"))])),
        ("transactions", Json::Array(txs)),
    ];
    obj(members.into_iter().filter(|(k, _)| *k != skip).collect())
}

#[test]
fn hex_with_and_without_prefix() {
    assert_eq!(parse_hexa_value(&text("0x2a")).unwrap(), 42);
    assert_eq!(parse_hexa_value(&text("2a")).unwrap(), 42);
    assert_eq!(parse_hex_str("0xFF"), Some(255));
    assert_eq!(parse_hex_str("0xffffffffffffffff"), Some(u64::MAX));
}

#[test]
fn hex_prefix_stripped_once() {
    assert_eq!(parse_hex_str("0x0x2a"), None);
    assert_eq!(parse_hex_str("0x"), None);
    assert_eq!(parse_hex_str(""), None);
    assert_eq!(parse_hex_str("0x10000000000000000"), None);
}

#[test]
fn hex_non_string_fails_with_type_error() {
    assert!(matches!(parse_hexa_value(&uint(42)), Err(BlockFetchErr::FieldTypeFail(n)) if n == "value"));
    assert!(matches!(parse_hexa_value(&Json::Null), Err(BlockFetchErr::FieldTypeFail(_))));
}

#[test]
fn hex_bad_digits_fail_with_conversion_error() {
    assert!(matches!(parse_hexa_value(&text("0xzz")), Err(BlockFetchErr::IntConvertFail(s)) if s == "0xzz"));
}

#[test]
fn lookup_finds_first_member() {
    let o = obj(vec![("a", uint(1)), ("b", uint(2))]);
    assert!(matches!(get_field(&o, "b"), Some(Json::Number(JsonNumber::Unsigned(2)))));
    assert!(get_field(&o, "c").is_none());
    assert!(get_field(&uint(3), "a").is_none());
}

#[test]
fn full_block_lines() {
    let b = block_with(
        vec![
            tx(Some("0x3b9aca00"), "INVOKE", "0x1"),
            tx(Some("0x0"), "INVOKE", "0x1"),
            tx(Some("0x77359400"), "DEPLOY", "0x0"),
        ],
        "",
    );
    let lines = block_lines(&b).unwrap();
    assert_eq!(
        lines,
        vec![
            "Block number: 640000",
            "Timestamp: 1700000000",
            "Block hash: 0xabc",
            "Parent hash: 0xdef",
            "Starknet version: 0.13.1",
            "Block status: ACCEPTED_ON_L2",
            "Sequencer address on mainnet is 0x1",
            "New root is 0x2",
            "L1 gas price is 1.00",
            "Max fee: min=0.00 gwei, max=2.00 gwei, avg=1.00 gwei",
            "Tx cnt: 3 , INVOKE: 2, DEPLOY: 1",
            "Seen INVOKE type with version 1 2 times",
            "Seen DEPLOY type with version 0 1 times",
        ]
    );
}

#[test]
fn empty_transactions_give_zero_fees() {
    let b = block_with(vec![], "");
    let s = decode_block(&b).unwrap();
    assert_eq!(s.stats.tx_count, 0);
    assert_eq!(s.stats.fee_sum, 0);
    let lines = summary_lines(&s);
    assert_eq!(lines.len(), 11);
    assert_eq!(lines[9], "Max fee: min=0.00 gwei, max=0.00 gwei, avg=0.00 gwei");
    assert_eq!(lines[10], "Tx cnt: 0 ");
}

#[test]
fn missing_block_hash_fails_without_output() {
    let b = block_with(vec![tx(None, "INVOKE", "0x1")], "block_hash");
    assert!(matches!(block_lines(&b), Err(BlockFetchErr::MissingField(n)) if n == "block_hash"));
}

#[test]
fn wrong_kind_of_header_fails() {
    let mut b = block_with(vec![], "status");
    if let Json::Object(m) = &mut b {
        m.push(("status".to_string(), uint(1)));
    }
    assert!(matches!(decode_block(&b), Err(BlockFetchErr::FieldTypeFail(n)) if n == "status"));
    let b = block_with(vec![], "timestamp");
    assert!(matches!(decode_block(&b), Err(BlockFetchErr::MissingField(n)) if n == "timestamp"));
}

#[test]
fn type_and_version_histograms() {
    let txs = vec![
        tx(None, "INVOKE", "0x1"),
        tx(None, "INVOKE", "0x1"),
        tx(None, "DEPLOY", "0x0"),
    ];
    let s = collect_stats(&txs).unwrap();
    assert_eq!(s.types, vec![("INVOKE".to_string(), 2), ("DEPLOY".to_string(), 1)]);
    assert_eq!(
        s.type_versions,
        vec![("INVOKE".to_string(), 1, 2), ("DEPLOY".to_string(), 0, 1)]
    );
}

#[test]
fn fee_statistics() {
    let txs = vec![
        tx(Some("0x3b9aca00"), "INVOKE", "0x1"),
        tx(Some("0x0"), "INVOKE", "0x1"),
        tx(Some("0x77359400"), "INVOKE", "0x1"),
    ];
    let s = collect_stats(&txs).unwrap();
    assert_eq!(s.fee_min, 0);
    assert_eq!(s.fee_max, 2_000_000_000);
    assert_eq!(s.fee_sum, 3_000_000_000);
    assert_eq!(s.fee_sum / s.tx_count as u128, 1_000_000_000);
}

#[test]
fn large_fees_are_not_truncated() {
    let txs = vec![tx(Some("0xffffffffffffffff"), "INVOKE", "0x3")];
    let s = collect_stats(&txs).unwrap();
    assert_eq!(s.fee_max, u64::MAX);
    let b = block_with(txs, "");
    let lines = block_lines(&b).unwrap();
    assert_eq!(
        lines[9],
        "Max fee: min=18446744073.71 gwei, max=18446744073.71 gwei, avg=18446744073.71 gwei"
    );
}

#[test]
fn bad_transaction_fails_the_block() {
    let b = block_with(vec![tx(Some("0x1"), "INVOKE", "0x1"), tx(Some("0xzz"), "INVOKE", "0x1")], "");
    assert!(matches!(block_lines(&b), Err(BlockFetchErr::IntConvertFail(s)) if s == "0xzz"));
    let no_type = obj(vec![("version", text("0x1"))]);
    assert!(matches!(collect_stats(&vec![no_type]), Err(BlockFetchErr::MissingField(n)) if n == "type"));
    let no_version = obj(vec![("type", text("INVOKE"))]);
    assert!(matches!(collect_stats(&vec![no_version]), Err(BlockFetchErr::MissingField(n)) if n == "version"));
}

#[test]
fn transactions_must_be_an_array() {
    let b = block_with(vec![], "transactions");
    assert!(matches!(decode_block(&b), Err(BlockFetchErr::MissingField(n)) if n == "transactions"));
}

#[test]
fn gas_price_defaults_to_zero() {
    let b = block_with(vec![], "l1_gas_price");
    let s = decode_block(&b).unwrap();
    assert_eq!(s.l1_gas_price_wei, 0);
    assert_eq!(summary_lines(&s)[8], "L1 gas price is 0.00");
    let mut b = block_with(vec![], "l1_gas_price");
    if let Json::Object(m) = &mut b {
        m.push(("l1_gas_price".to_string(), obj(vec![("price_in_wei", text("0xq"))])));
    }
    assert!(matches!(decode_block(&b), Err(BlockFetchErr::IntConvertFail(_))));
}

#[test]
fn gas_price_rounds_to_hundredths() {
    let mut b = block_with(vec![], "l1_gas_price");
    if let Json::Object(m) = &mut b {
        // 25 gwei and a half hundredth: 25_005_000_000 wei
        m.push(("l1_gas_price".to_string(), obj(vec![("price_in_wei", text("0x5d26a0540"))])));
    }
    let lines = block_lines(&b).unwrap();
    assert_eq!(lines[8], "L1 gas price is 25.01");
}

#[test]
fn negative_and_fractional_numbers_keep_their_text() {
    let mut b = block_with(vec![], "timestamp");
    if let Json::Object(m) = &mut b {
        m.push(("timestamp".to_string(), Json::Number(JsonNumber::Negative(-5))));
    }
    assert_eq!(block_lines(&b).unwrap()[1], "Timestamp: -5");
    let mut b = block_with(vec![], "block_number");
    if let Json::Object(m) = &mut b {
        m.push(("block_number".to_string(), Json::Number(JsonNumber::Fractional("1.5".to_string()))));
    }
    assert_eq!(block_lines(&b).unwrap()[0], "Block number: 1.5");
}

#[test]
fn response_without_result_fails() {
    let data = obj(vec![("id", text("1"))]);
    assert!(matches!(response_block_lines(&data), Err(BlockFetchErr::MissingField(n)) if n == "result"));
    let data = obj(vec![("result", block_with(vec![], ""))]);
    assert_eq!(response_block_lines(&data).unwrap()[0], "Block number: 640000");
}
