//! The JSON-RPC requests sent to the node, and reading its block number.
use vstd::prelude::*;
use vstd::string::*;
use crate::error::BlockNumberFetchErr;
use crate::json::{Json, JsonNumber, field_of, get_field};

verus! {

pub open spec fn is_text(v: Json, t: Seq<char>) -> bool {
    match v {
        Json::Str(s) => s@ == t,
        _ => false,
    }
}

/// `r` is a JSON-RPC 2.0 call of `method` with id `"1"`; its members are
/// `params`, `jsonrpc`, `method` and `id`, in that order.
pub open spec fn is_call(r: Json, method: Seq<char>) -> bool {
    match r {
        Json::Object(m) => m@.len() == 4 && m@[0].0@ == "params"@ && m@[1].0@ == "jsonrpc"@ && is_text(m@[1].1, "2.0"@)
            && m@[2].0@ == "method"@ && is_text(m@[2].1, method) && m@[3].0@ == "id"@ && is_text(m@[3].1, "1"@),
        _ => false,
    }
}

pub open spec fn call_params(r: Json) -> Json {
    match r {
        Json::Object(m) => m@[0].1,
        _ => Json::Null,
    }
}

fn member(key: &str, value: Json) -> (r: (String, Json))
    ensures
        r.0@ == key@,
        r.1 == value,
{
    (String::from_str(key), value)
}

fn call(method: &str, params: Json) -> (r: Json)
    ensures
        is_call(r, method@),
        call_params(r) == params,
{
    let mut m: Vec<(String, Json)> = Vec::new();
    m.push(member("params", params));
    m.push(member("jsonrpc", Json::Str(String::from_str("2.0"))));
    m.push(member("method", Json::Str(String::from_str(method))));
    m.push(member("id", Json::Str(String::from_str("1"))));
    Json::Object(m)
}

/// The request for the latest block number: `starknet_blockNumber`, no
/// parameters (`null`).
pub fn block_number_request() -> (r: Json)
    ensures
        is_call(r, "starknet_blockNumber"@),
        call_params(r) == Json::Null,
{
    call("starknet_blockNumber", Json::Null)
}

/// `p` is `{"block_id": {"block_number": n}}`.
pub open spec fn is_block_id_params(p: Json, n: u64) -> bool {
    match p {
        Json::Object(m) => m@.len() == 1 && m@[0].0@ == "block_id"@ && match m@[0].1 {
            Json::Object(id) => id@.len() == 1 && id@[0].0@ == "block_number"@ && id@[0].1 == Json::Number(
                JsonNumber::Unsigned(n),
            ),
            _ => false,
        },
        _ => false,
    }
}

/// The request for block `block_id` with its transactions:
/// `starknet_getBlockWithTxs`.
pub fn block_request(block_id: u64) -> (r: Json)
    ensures
        is_call(r, "starknet_getBlockWithTxs"@),
        is_block_id_params(call_params(r), block_id),
{
    let mut id: Vec<(String, Json)> = Vec::new();
    id.push(member("block_number", Json::Number(JsonNumber::Unsigned(block_id))));
    let mut params: Vec<(String, Json)> = Vec::new();
    params.push(member("block_id", Json::Object(id)));
    call("starknet_getBlockWithTxs", Json::Object(params))
}

/// The block number in the node's answer: its `result` must be an unsigned
/// 64-bit integer.
pub open spec fn answered_number(data: Json) -> Option<u64> {
    match field_of(data, "result"@) {
        Some(Json::Number(JsonNumber::Unsigned(n))) => Some(n),
        _ => None,
    }
}

/// Reads the latest block number from the node's answer.
pub fn block_number_from_response(data: &Json) -> (r: Result<u64, BlockNumberFetchErr>)
    ensures
        match answered_number(*data) {
            Some(n) => r == Ok::<u64, BlockNumberFetchErr>(n),
            None => r matches Err(BlockNumberFetchErr::NumberConvertFail),
        },
{
    match get_field(data, "result") {
        Some(Json::Number(JsonNumber::Unsigned(n))) => Ok(*n),
        _ => Err(BlockNumberFetchErr::NumberConvertFail),
    }
}

} // verus!
