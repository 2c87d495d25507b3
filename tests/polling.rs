use block_monitor::display::{boxed_lines, display_type_for, DisplayType};
use block_monitor::error::BlockNumberFetchErr;
use block_monitor::json::{get_field, Json, JsonNumber};
use block_monitor::poll::Poller;
use block_monitor::rpc::{block_number_from_response, block_number_request, block_request};

fn answer(result: Json) -> Json {
    Json::Object(vec![
        ("jsonrpc".to_string(), Json::Str("2.0".to_string())),
        ("result".to_string(), result),
    ])
}

fn text_of(v: Option<&Json>) -> Option<String> {
    match v {
        Some(Json::Str(s)) => Some(s.clone()),
        _ => None,
    }
}

#[test]
fn block_number_is_read() {
    let r = block_number_from_response(&answer(Json::Number(JsonNumber::Unsigned(640_001))));
    assert_eq!(r.unwrap(), 640_001);
}

#[test]
fn block_number_not_a_number_fails() {
    let r = block_number_from_response(&answer(Json::Str("not a number".to_string())));
    assert!(matches!(r, Err(BlockNumberFetchErr::NumberConvertFail)));
    let r = block_number_from_response(&answer(Json::Number(JsonNumber::Negative(-1))));
    assert!(matches!(r, Err(BlockNumberFetchErr::NumberConvertFail)));
    let r = block_number_from_response(&Json::Object(vec![]));
    assert!(matches!(r, Err(BlockNumberFetchErr::NumberConvertFail)));
}

#[test]
fn requests_have_the_json_rpc_envelope() {
    let r = block_number_request();
    assert_eq!(text_of(get_field(&r, "jsonrpc")).unwrap(), "2.0");
    assert_eq!(text_of(get_field(&r, "method")).unwrap(), "starknet_blockNumber");
    assert_eq!(text_of(get_field(&r, "id")).unwrap(), "1");
    assert!(matches!(get_field(&r, "params"), Some(Json::Null)));
    let r = block_request(77);
    assert_eq!(text_of(get_field(&r, "method")).unwrap(), "starknet_getBlockWithTxs");
    let id = get_field(get_field(&r, "params").unwrap(), "block_id").unwrap();
    assert!(matches!(get_field(id, "block_number"), Some(Json::Number(JsonNumber::Unsigned(77)))));
}

#[test]
fn unchanged_height_is_not_fetched_twice() {
    let mut p = Poller::new();
    assert!(p.should_fetch(5));
    p.record_shown(5);
    assert!(!p.should_fetch(5));
    assert!(!p.should_fetch(5));
    assert!(p.should_fetch(6));
}

#[test]
fn failed_fetch_is_retried() {
    let p = Poller::new();
    assert!(p.should_fetch(9));
    assert!(p.should_fetch(9));
    assert!(!p.should_fetch(0));
}

#[test]
fn stroke_follows_parity() {
    assert_eq!(display_type_for(4), DisplayType::DoubleLine);
    assert_eq!(display_type_for(7), DisplayType::SingleLine);
}

#[test]
fn box_pads_to_widest_line() {
    let lines = vec!["ab".to_string(), "abcd".to_string()];
    assert_eq!(
        boxed_lines(&lines, DisplayType::SingleLine),
        vec!["┌────┐", "│ab  │", "│abcd│", "└────┘"]
    );
    assert_eq!(
        boxed_lines(&lines, DisplayType::DoubleLine),
        vec!["╔════╗", "║ab  ║", "║abcd║", "╚════╝"]
    );
    assert_eq!(boxed_lines(&vec![], DisplayType::SingleLine), vec!["┌┐", "└┘"]);
}
