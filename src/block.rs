//! Decoding a block document into a summary, and rendering the summary as
//! display lines.
use vstd::prelude::*;
use vstd::string::*;
use crate::error::{BlockFetchErr, FetchErrView};
use crate::hex::{hex_of_json, parse_hex_field};
use crate::json::{Json, JsonNumber, field_of, get_field};
use crate::stats::{TransactionStats, TxRecord, collect_stats, stats_of, tx_records};
use vstd::arithmetic::div_mod::lemma_fundamental_div_mod;
use crate::text::{decimal, fixed2, push_decimal, push_fixed2};

verus! {

/// The textual form of a number, as the node wrote it.
pub open spec fn number_text(n: JsonNumber) -> Seq<char> {
    match n {
        JsonNumber::Unsigned(u) => decimal(u as nat),
        JsonNumber::Negative(i) => seq!['-'] + decimal((if i < 0 { -i } else { i as int }) as nat),
        JsonNumber::Fractional(s) => s@,
    }
}

/// Writes a number in its textual form.
pub fn number_string(n: &JsonNumber) -> (r: String)
    ensures
        r@ == number_text(*n),
{
    match n {
        JsonNumber::Unsigned(u) => {
            let mut s = String::new();
            push_decimal(&mut s, *u as u128);
            assert(s@ =~= number_text(*n));
            s
        },
        JsonNumber::Negative(i) => {
            proof { reveal_strlit("-"); }
            let mut s = String::from_str("-");
            let m: i128 = if *i < 0 { -(*i as i128) } else { *i as i128 };
            push_decimal(&mut s, m as u128);
            s
        },
        JsonNumber::Fractional(t) => t.clone(),
    }
}

/// The members that every block must hold, in the order they are shown.
pub open spec fn header_name(k: int) -> Seq<char> {
    seq![
        "block_number"@,
        "timestamp"@,
        "block_hash"@,
        "parent_hash"@,
        "starknet_version"@,
        "status"@,
        "sequencer_address"@,
        "new_root"@,
    ][k]
}

/// Reads header member `k`: the first two are numbers, the others strings.
pub open spec fn header_field(b: Json, k: int) -> Result<Seq<char>, FetchErrView> {
    let name = header_name(k);
    match field_of(b, name) {
        None => Err(FetchErrView::MissingField(name)),
        Some(Json::Number(n)) if k < 2 => Ok(number_text(n)),
        Some(Json::Str(s)) if k >= 2 => Ok(s@),
        Some(_) => Err(FetchErrView::FieldTypeFail(name)),
    }
}

/// Reads the first `n` header members in order; the first failure wins.
pub open spec fn headers(b: Json, n: nat) -> Result<Seq<Seq<char>>, FetchErrView>
    decreases n,
{
    if n == 0 {
        Ok(seq![])
    } else {
        match headers(b, (n - 1) as nat) {
            Err(e) => Err(e),
            Ok(hs) => match header_field(b, n - 1) {
                Err(e) => Err(e),
                Ok(h) => Ok(hs.push(h)),
            },
        }
    }
}

/// The L1 gas price in wei: zero unless `l1_gas_price` is an object that
/// holds `price_in_wei`, which must then be a hexadecimal string.
pub open spec fn gas_price_wei(b: Json) -> Result<u64, FetchErrView> {
    match field_of(b, "l1_gas_price"@) {
        Some(g) => match field_of(g, "price_in_wei"@) {
            Some(p) => hex_of_json(p, "price_in_wei"@),
            None => Ok(0),
        },
        None => Ok(0),
    }
}

/// What a block document decodes to: its header texts, its gas price and
/// its transaction records; or the first failure met in that order.
pub open spec fn block_decoding(b: Json) -> Result<(Seq<Seq<char>>, u64, Seq<TxRecord>), FetchErrView> {
    match headers(b, 8) {
        Err(e) => Err(e),
        Ok(hs) => match gas_price_wei(b) {
            Err(e) => Err(e),
            Ok(g) => match field_of(b, "transactions"@) {
                None => Err(FetchErrView::MissingField("transactions"@)),
                Some(Json::Array(txs)) => match tx_records(txs@) {
                    Err(e) => Err(e),
                    Ok(rs) => Ok((hs, g, rs)),
                },
                Some(_) => Err(FetchErrView::FieldTypeFail("transactions"@)),
            },
        },
    }
}

proof fn lemma_headers_fail(b: Json, k: nat, n: nat)
    requires
        k < n,
        headers(b, k) is Ok,
        header_field(b, k as int) is Err,
    ensures
        headers(b, n) == Err::<Seq<Seq<char>>, FetchErrView>(header_field(b, k as int)->Err_0),
    decreases n,
{
    if n - 1 > k {
        lemma_headers_fail(b, k, (n - 1) as nat);
    }
}

/// A decoded block.
pub struct BlockSummary {
    pub block_number: String,
    pub timestamp: String,
    pub block_hash: String,
    pub parent_hash: String,
    pub starknet_version: String,
    pub status: String,
    pub sequencer_address: String,
    pub new_root: String,
    pub l1_gas_price_wei: u64,
    pub stats: TransactionStats,
}

pub open spec fn summary_headers(s: BlockSummary) -> Seq<Seq<char>> {
    seq![
        s.block_number@,
        s.timestamp@,
        s.block_hash@,
        s.parent_hash@,
        s.starknet_version@,
        s.status@,
        s.sequencer_address@,
        s.new_root@,
    ]
}

fn header_key(k: usize) -> (r: &'static str)
    requires
        k < 8,
    ensures
        r@ == header_name(k as int),
{
    match k {
        0 => "block_number",
        1 => "timestamp",
        2 => "block_hash",
        3 => "parent_hash",
        4 => "starknet_version",
        5 => "status",
        6 => "sequencer_address",
        _ => "new_root",
    }
}

fn read_header(b: &Json, k: usize) -> (r: Result<String, BlockFetchErr>)
    requires
        k < 8,
    ensures
        match r {
            Ok(s) => header_field(*b, k as int) == Ok::<Seq<char>, FetchErrView>(s@),
            Err(e) => header_field(*b, k as int) == Err::<Seq<char>, FetchErrView>(e@),
        },
{
    let name = header_key(k);
    match get_field(b, name) {
        None => Err(BlockFetchErr::MissingField(String::from_str(name))),
        Some(Json::Number(n)) if k < 2 => Ok(number_string(n)),
        Some(Json::Str(s)) if k >= 2 => Ok(s.clone()),
        Some(_) => Err(BlockFetchErr::FieldTypeFail(String::from_str(name))),
    }
}

fn read_gas_price(b: &Json) -> (r: Result<u64, BlockFetchErr>)
    ensures
        match r {
            Ok(g) => gas_price_wei(*b) == Ok::<u64, FetchErrView>(g),
            Err(e) => gas_price_wei(*b) == Err::<u64, FetchErrView>(e@),
        },
{
    match get_field(b, "l1_gas_price") {
        Some(g) => match get_field(g, "price_in_wei") {
            Some(p) => parse_hex_field(p, "price_in_wei"),
            None => Ok(0),
        },
        None => Ok(0),
    }
}

/// Decodes a block document: every header member, the gas price and every
/// transaction must read, else the first failure is returned.
pub fn decode_block(b: &Json) -> (r: Result<BlockSummary, BlockFetchErr>)
    ensures
        match block_decoding(*b) {
            Ok((hs, g, rs)) => r matches Ok(s) && summary_headers(s) == hs && s.l1_gas_price_wei == g
                && stats_of(s.stats, rs),
            Err(e) => r matches Err(err) && err@ == e,
        },
{
    let mut texts: Vec<String> = Vec::new();
    let mut k: usize = 0;
    assert(texts@.map_values(|t: String| t@) =~= Seq::<Seq<char>>::empty());
    while k < 8
        invariant
            0 <= k <= 8,
            texts@.len() == k,
            headers(*b, k as nat) == Ok::<Seq<Seq<char>>, FetchErrView>(texts@.map_values(|t: String| t@)),
        decreases 8 - k,
    {
        match read_header(b, k) {
            Ok(t) => {
                let ghost prev = texts@;
                let ghost h = t@;
                texts.push(t);
                assert(texts@.map_values(|t: String| t@) =~= prev.map_values(|t: String| t@).push(h));
            },
            Err(e) => {
                proof { lemma_headers_fail(*b, k as nat, 8); }
                return Err(e);
            },
        }
        k = k + 1;
    }
    let ghost hs = texts@.map_values(|t: String| t@);
    let gas = match read_gas_price(b) {
        Ok(g) => g,
        Err(e) => return Err(e),
    };
    let txs = match get_field(b, "transactions") {
        None => return Err(BlockFetchErr::MissingField(String::from_str("transactions"))),
        Some(Json::Array(txs)) => txs,
        Some(_) => return Err(BlockFetchErr::FieldTypeFail(String::from_str("transactions"))),
    };
    let stats = match collect_stats(txs) {
        Ok(s) => s,
        Err(e) => return Err(e),
    };
    let summary = BlockSummary {
        block_number: texts[0].clone(),
        timestamp: texts[1].clone(),
        block_hash: texts[2].clone(),
        parent_hash: texts[3].clone(),
        starknet_version: texts[4].clone(),
        status: texts[5].clone(),
        sequencer_address: texts[6].clone(),
        new_root: texts[7].clone(),
        l1_gas_price_wei: gas,
        stats,
    };
    assert(summary_headers(summary) =~= hs);
    Ok(summary)
}

/// `n / d` rounded to the nearest integer, halves up; zero when `d` is zero.
pub open spec fn rounded_div(n: nat, d: nat) -> nat {
    if d == 0 {
        0
    } else {
        n / d + if 2 * (n % d) >= d { 1nat } else { 0nat }
    }
}

/// A wei amount in hundredths of a gwei, rounded.
pub open spec fn gwei_hundredths(wei: nat) -> nat {
    rounded_div(wei, 10_000_000)
}

/// The mean fee in hundredths of a gwei, rounded; zero without transactions.
pub open spec fn mean_fee_hundredths(st: TransactionStats) -> nat {
    rounded_div(st.fee_sum as nat, (st.tx_count * 10_000_000) as nat)
}

/// `, <type>: <count>` for each entry, in order.
pub open spec fn type_entries_text(types: Seq<(String, usize)>) -> Seq<char>
    decreases types.len(),
{
    if types.len() == 0 {
        seq![]
    } else {
        type_entries_text(types.drop_last()) + ", "@ + types.last().0@ + ": "@ + decimal(types.last().1 as nat)
    }
}

pub open spec fn pair_line(p: (String, u64, usize)) -> Seq<char> {
    "Seen "@ + p.0@ + " type with version "@ + decimal(p.1 as nat) + " "@ + decimal(p.2 as nat) + " times"@
}

pub open spec fn fee_line(st: TransactionStats) -> Seq<char> {
    "Max fee: min="@ + fixed2(gwei_hundredths(st.fee_min as nat)) + " gwei, max="@ + fixed2(
        gwei_hundredths(st.fee_max as nat),
    ) + " gwei, avg="@ + fixed2(mean_fee_hundredths(st)) + " gwei"@
}

/// The display lines of a block: one per header member, the gas price, the
/// fees, the count of transactions by type, then one per (type, version).
pub open spec fn summary_text(s: BlockSummary) -> Seq<Seq<char>> {
    seq![
        "Block number: "@ + s.block_number@,
        "Timestamp: "@ + s.timestamp@,
        "Block hash: "@ + s.block_hash@,
        "Parent hash: "@ + s.parent_hash@,
        "Starknet version: "@ + s.starknet_version@,
        "Block status: "@ + s.status@,
        "Sequencer address on mainnet is "@ + s.sequencer_address@,
        "New root is "@ + s.new_root@,
        "L1 gas price is "@ + fixed2(gwei_hundredths(s.l1_gas_price_wei as nat)),
        fee_line(s.stats),
        "Tx cnt: "@ + decimal(s.stats.tx_count as nat) + " "@ + type_entries_text(s.stats.types@),
    ] + s.stats.type_versions@.map_values(|p: (String, u64, usize)| pair_line(p))
}

fn round_div(n: u128, d: u128) -> (r: u128)
    requires
        d > 0,
    ensures
        r as nat == rounded_div(n as nat, d as nat),
{
    let q = n / d;
    let rem = n % d;
    if rem >= d - rem {
        proof {
            lemma_fundamental_div_mod(n as int, d as int);
            assert(q < u128::MAX) by (nonlinear_arith)
                requires
                    n == d * q + rem,
                    rem >= 1,
                    rem < d,
                    n <= u128::MAX,
            ;
        }
        q + 1
    } else {
        q
    }
}

fn labelled(label: &str, value: &str) -> (r: String)
    ensures
        r@ == label@ + value@,
{
    let mut s = String::from_str(label);
    s.append(value);
    s
}

/// Renders a decoded block as display lines.
pub fn summary_lines(s: &BlockSummary) -> (r: Vec<String>)
    ensures
        r@.map_values(|l: String| l@) == summary_text(*s),
{
    let st = &s.stats;
    let mut lines: Vec<String> = Vec::new();
    lines.push(labelled("Block number: ", s.block_number.as_str()));
    lines.push(labelled("Timestamp: ", s.timestamp.as_str()));
    lines.push(labelled("Block hash: ", s.block_hash.as_str()));
    lines.push(labelled("Parent hash: ", s.parent_hash.as_str()));
    lines.push(labelled("Starknet version: ", s.starknet_version.as_str()));
    lines.push(labelled("Block status: ", s.status.as_str()));
    lines.push(labelled("Sequencer address on mainnet is ", s.sequencer_address.as_str()));
    lines.push(labelled("New root is ", s.new_root.as_str()));
    let mut gas = String::from_str("L1 gas price is ");
    push_fixed2(&mut gas, round_div(s.l1_gas_price_wei as u128, 10_000_000));
    lines.push(gas);
    let mut fees = String::from_str("Max fee: min=");
    push_fixed2(&mut fees, round_div(st.fee_min as u128, 10_000_000));
    fees.append(" gwei, max=");
    push_fixed2(&mut fees, round_div(st.fee_max as u128, 10_000_000));
    fees.append(" gwei, avg=");
    let mean = if st.tx_count == 0 {
        0
    } else {
        round_div(st.fee_sum, st.tx_count as u128 * 10_000_000)
    };
    push_fixed2(&mut fees, mean);
    fees.append(" gwei");
    lines.push(fees);
    let mut count_line = String::from_str("Tx cnt: ");
    push_decimal(&mut count_line, st.tx_count as u128);
    count_line.append(" ");
    let ghost head = count_line@;
    let mut i: usize = 0;
    while i < st.types.len()
        invariant
            0 <= i <= st.types@.len(),
            count_line@ == head + type_entries_text(st.types@.subrange(0, i as int)),
        decreases st.types@.len() - i,
    {
        assert(st.types@.subrange(0, i + 1).drop_last() =~= st.types@.subrange(0, i as int));
        count_line.append(", ");
        count_line.append(st.types[i].0.as_str());
        count_line.append(": ");
        push_decimal(&mut count_line, st.types[i].1 as u128);
        assert(count_line@ =~= head + type_entries_text(st.types@.subrange(0, i + 1)));
        i = i + 1;
    }
    assert(st.types@.subrange(0, i as int) =~= st.types@);
    lines.push(count_line);
    let ghost fixed = lines@.map_values(|l: String| l@);
    let ghost want = summary_text(*s);
    assert(fixed =~= want.subrange(0, 11));
    let mut j: usize = 0;
    while j < st.type_versions.len()
        invariant
            0 <= j <= st.type_versions@.len(),
            lines@.len() == 11 + j,
            forall|k: int| 0 <= k < 11 ==> #[trigger] lines@[k]@ == fixed[k],
            forall|k: int| 0 <= k < j ==> #[trigger] lines@[11 + k]@ == pair_line(st.type_versions@[k]),
        decreases st.type_versions@.len() - j,
    {
        let p = &st.type_versions[j];
        let mut l = String::from_str("Seen ");
        l.append(p.0.as_str());
        l.append(" type with version ");
        push_decimal(&mut l, p.1 as u128);
        l.append(" ");
        push_decimal(&mut l, p.2 as u128);
        l.append(" times");
        lines.push(l);
        j = j + 1;
    }
    assert forall|k: int| 0 <= k < lines@.len() implies #[trigger] lines@[k]@ == want[k] by {
        if k < 11 {
            assert(fixed[k] == want.subrange(0, 11)[k]);
        } else {
            assert(lines@[11 + (k - 11)]@ == pair_line(st.type_versions@[k - 11]));
        }
    }
    assert(lines@.map_values(|l: String| l@) =~= want);
    lines
}

/// `s` is what a block with header texts `hs`, gas price `g` and
/// transaction records `rs` decodes to.
pub open spec fn summary_of(s: BlockSummary, hs: Seq<Seq<char>>, g: u64, rs: Seq<TxRecord>) -> bool {
    summary_headers(s) == hs && s.l1_gas_price_wei == g && stats_of(s.stats, rs)
}

/// Decodes a block document and renders it; on failure nothing is rendered.
pub fn block_lines(b: &Json) -> (r: Result<Vec<String>, BlockFetchErr>)
    ensures
        match block_decoding(*b) {
            Ok((hs, g, rs)) => r matches Ok(lines) && exists|s: BlockSummary|
                summary_of(s, hs, g, rs) && lines@.map_values(|l: String| l@) == #[trigger] summary_text(s),
            Err(e) => r matches Err(err) && err@ == e,
        },
{
    match decode_block(b) {
        Ok(s) => {
            let lines = summary_lines(&s);
            assert(summary_of(s, summary_headers(s), s.l1_gas_price_wei, block_decoding(*b)->Ok_0.2));
            Ok(lines)
        },
        Err(e) => Err(e),
    }
}

/// Takes the block out of the node's answer (its member `result`) and
/// renders it.
pub fn response_block_lines(data: &Json) -> (r: Result<Vec<String>, BlockFetchErr>)
    ensures
        match field_of(*data, "result"@) {
            None => r matches Err(err) && err@ == FetchErrView::MissingField("result"@),
            Some(b) => match block_decoding(b) {
                Ok((hs, g, rs)) => r matches Ok(lines) && exists|s: BlockSummary|
                    summary_of(s, hs, g, rs) && lines@.map_values(|l: String| l@) == #[trigger] summary_text(s),
                Err(e) => r matches Err(err) && err@ == e,
            },
        },
{
    match get_field(data, "result") {
        None => Err(BlockFetchErr::MissingField(String::from_str("result"))),
        Some(b) => block_lines(b),
    }
}

/// A block whose header members up to `k` read, and whose member `k` is
/// absent, fails with `MissingField` naming that member: nothing is shown.
pub proof fn lemma_missing_header_fails(b: Json, k: nat)
    requires
        k < 8,
        headers(b, k) is Ok,
        field_of(b, header_name(k as int)) is None,
    ensures
        block_decoding(b) == Err::<(Seq<Seq<char>>, u64, Seq<TxRecord>), FetchErrView>(
            FetchErrView::MissingField(header_name(k as int)),
        ),
{
    lemma_headers_fail(b, k, 8);
}

/// A block without transactions shows zero for every fee, the mean too,
/// and no type.
pub proof fn lemma_no_transactions_zero_fees(s: TransactionStats)
    requires
        stats_of(s, seq![]),
    ensures
        s.fee_min == 0,
        s.fee_max == 0,
        mean_fee_hundredths(s) == 0,
        s.types@.len() == 0,
        s.type_versions@.len() == 0,
{
    if s.types@.len() > 0 {
        assert(s.types@[0].1 as nat == crate::stats::type_count(seq![], s.types@[0].0@));
    }
    if s.type_versions@.len() > 0 {
        assert(s.type_versions@[0].2 as nat == crate::stats::type_version_count(
            seq![],
            s.type_versions@[0].0@,
            s.type_versions@[0].1,
        ));
    }
}

} // verus!
