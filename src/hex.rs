//! Hexadecimal quantities as the node writes them (`"0x1a2b"`).
use vstd::prelude::*;
use vstd::string::*;
use crate::error::{BlockFetchErr, FetchErrView, result_view};
use crate::json::Json;

verus! {

/// The value of a hexadecimal digit, either case.
pub open spec fn hex_digit(c: char) -> Option<nat> {
    if '0' <= c && c <= '9' {
        Some((c as nat - '0' as nat) as nat)
    } else if 'a' <= c && c <= 'f' {
        Some((c as nat - 'a' as nat + 10) as nat)
    } else if 'A' <= c && c <= 'F' {
        Some((c as nat - 'A' as nat + 10) as nat)
    } else {
        None
    }
}

pub open spec fn all_hex_digits(s: Seq<char>) -> bool {
    forall|i: int| 0 <= i < s.len() ==> (#[trigger] hex_digit(s[i])).is_some()
}

/// The number that a string of hexadecimal digits denotes.
pub open spec fn hex_number(s: Seq<char>) -> nat
    decreases s.len(),
{
    if s.len() == 0 {
        0
    } else {
        hex_number(s.drop_last()) * 16 + hex_digit(s.last()).unwrap()
    }
}

/// `s` without one leading `0x`, where it has one.
pub open spec fn strip_hex_prefix(s: Seq<char>) -> Seq<char> {
    if s.len() >= 2 && s[0] == '0' && s[1] == 'x' {
        s.subrange(2, s.len() as int)
    } else {
        s
    }
}

/// The 64-bit value of `s`: one optional `0x`, then one or more hex digits.
pub open spec fn hex_value(s: Seq<char>) -> Option<u64> {
    let digits = strip_hex_prefix(s);
    if digits.len() > 0 && all_hex_digits(digits) && hex_number(digits) <= u64::MAX {
        Some(hex_number(digits) as u64)
    } else {
        None
    }
}

proof fn lemma_hex_number_grows(s: Seq<char>, k: int)
    requires
        0 <= k <= s.len(),
        all_hex_digits(s),
    ensures
        hex_number(s.subrange(0, k)) <= hex_number(s),
    decreases s.len(),
{
    if k < s.len() {
        assert(all_hex_digits(s.drop_last())) by {
            assert forall|i: int| 0 <= i < s.drop_last().len() implies (#[trigger] hex_digit(s.drop_last()[i])).is_some() by {
                assert(hex_digit(s[i]).is_some());
            }
        }
        lemma_hex_number_grows(s.drop_last(), k);
        assert(s.drop_last().subrange(0, k) =~= s.subrange(0, k));
    } else {
        assert(s.subrange(0, k) =~= s);
    }
}

fn digit_of(c: char) -> (r: Option<u64>)
    ensures
        match hex_digit(c) {
            Some(d) => r == Some(d as u64),
            None => r.is_none(),
        },
{
    if '0' <= c && c <= '9' {
        Some(c as u64 - '0' as u64)
    } else if 'a' <= c && c <= 'f' {
        Some(c as u64 - 'a' as u64 + 10)
    } else if 'A' <= c && c <= 'F' {
        Some(c as u64 - 'A' as u64 + 10)
    } else {
        None
    }
}

/// Reads a hexadecimal string with one optional `0x` prefix; `None` when
/// the digits are missing or invalid, or the value exceeds 64 bits.
pub fn parse_hex_str(s: &str) -> (r: Option<u64>)
    ensures
        r == hex_value(s@),
{
    let n = s.unicode_len();
    let mut start: usize = 0;
    if n >= 2 && s.get_char(0) == '0' && s.get_char(1) == 'x' {
        start = 2;
    }
    let ghost digits = strip_hex_prefix(s@);
    assert(digits =~= s@.subrange(start as int, n as int));
    if start == n {
        return None;
    }
    let mut acc: u64 = 0;
    let mut i: usize = start;
    while i < n
        invariant
            start <= i <= n,
            n == s@.len(),
            digits =~= s@.subrange(start as int, n as int),
            digits == strip_hex_prefix(s@),
            all_hex_digits(digits.subrange(0, i - start)),
            acc as nat == hex_number(digits.subrange(0, i - start)),
        decreases n - i,
    {
        let c = s.get_char(i);
        let ghost pre = digits.subrange(0, i - start);
        let ghost next = digits.subrange(0, i + 1 - start);
        assert(next.drop_last() =~= pre);
        assert(next.last() == c);
        assert(digits[i - start] == c);
        match digit_of(c) {
            None => {
                assert(!all_hex_digits(digits) && hex_digit(digits[i - start]).is_none());
                return None;
            },
            Some(d) => {
                assert(all_hex_digits(next)) by {
                    assert forall|j: int| 0 <= j < next.len() implies (#[trigger] hex_digit(next[j])).is_some() by {
                        if j < pre.len() {
                            assert(hex_digit(pre[j]).is_some());
                        }
                    }
                }
                if acc > (u64::MAX - d) / 16 {
                    assert(hex_number(next) > u64::MAX) by (nonlinear_arith)
                        requires
                            hex_number(next) == acc * 16 + d,
                            acc > (u64::MAX - d) / 16,
                            d < 16,
                    ;
                    proof {
                        if all_hex_digits(digits) {
                            lemma_hex_number_grows(digits, (i + 1 - start) as int);
                        }
                    }
                    return None;
                }
                assert(acc * 16 + d <= u64::MAX) by (nonlinear_arith)
                    requires
                        acc <= (u64::MAX - d) / 16,
                        d < 16,
                ;
                acc = acc * 16 + d;
                i = i + 1;
            },
        }
    }
    assert(digits.subrange(0, n - start) =~= digits);
    Some(acc)
}

/// Reading the member `name`, holding `v`, as a hexadecimal quantity: it must
/// be a string, and the string must read as one.
pub open spec fn hex_of_json(v: Json, name: Seq<char>) -> Result<u64, FetchErrView> {
    match v {
        Json::Str(s) => match hex_value(s@) {
            Some(x) => Ok(x),
            None => Err(FetchErrView::IntConvertFail(s@)),
        },
        _ => Err(FetchErrView::FieldTypeFail(name)),
    }
}

/// Reads the value of member `name` as a hexadecimal quantity.
pub fn parse_hex_field(input: &Json, name: &str) -> (r: Result<u64, BlockFetchErr>)
    ensures
        result_view(r) == hex_of_json(*input, name@),
{
    match input {
        Json::Str(s) => match parse_hex_str(s.as_str()) {
            Some(x) => Ok(x),
            None => Err(BlockFetchErr::IntConvertFail(s.clone())),
        },
        _ => Err(BlockFetchErr::FieldTypeFail(String::from_str(name))),
    }
}

/// Reads a JSON string such as `"0x2a"` as a 64-bit quantity. A value that
/// is not a string fails with `FieldTypeFail("value")`.
pub fn parse_hexa_value(input: &Json) -> (r: Result<u64, BlockFetchErr>)
    ensures
        result_view(r) == hex_of_json(*input, "value"@),
{
    parse_hex_field(input, "value")
}

/// A lowercase hexadecimal digit string (`[0-9a-f]+`) reads the same with
/// or without one `0x` in front of it.
pub proof fn lemma_prefix_is_optional(s: Seq<char>)
    requires
        s.len() > 0,
        forall|i: int| 0 <= i < s.len() ==> ('0' <= #[trigger] s[i] <= '9' || 'a' <= s[i] <= 'f'),
    ensures
        hex_value(seq!['0', 'x'] + s) == hex_value(s),
{
    let p = seq!['0', 'x'] + s;
    assert(p.subrange(2, p.len() as int) =~= s);
    if s.len() >= 2 {
        assert('0' <= s[1] <= '9' || 'a' <= s[1] <= 'f');
    }
    assert(strip_hex_prefix(s) == s);
    assert forall|i: int| 0 <= i < s.len() implies (#[trigger] hex_digit(s[i])).is_some() by {
        assert('0' <= s[i] <= '9' || 'a' <= s[i] <= 'f');
    }
}

} // verus!
