//! Decimal text of integers, as `to_string` writes them.
use vstd::prelude::*;
use crate::text::{string_of, owned, push_str};

verus! {

broadcast use vstd::string::group_string_axioms;

/// The decimal digit character for `d < 10`.
pub open spec fn digit_char(d: nat) -> char {
    (d + 48) as char
}

/// The decimal digits of `n`, most significant first, without leading
/// zeros ("0" for zero).
pub open spec fn decimal_spec(n: nat) -> Seq<char>
    decreases n,
{
    if n < 10 {
        seq![digit_char(n)]
    } else {
        decimal_spec(n / 10).push(digit_char(n % 10))
    }
}

/// The decimal text of a signed number: a `-` before the digits of its
/// magnitude where it is negative.
pub open spec fn signed_decimal_spec(n: int) -> Seq<char> {
    if n < 0 {
        seq!['-'] + decimal_spec((-n) as nat)
    } else {
        decimal_spec(n as nat)
    }
}

fn digit_exec(d: u64) -> (c: char)
    requires
        d < 10,
    ensures
        c == digit_char(d as nat),
{
    ((d as u8) + 48) as char
}

fn decimal_chars(n: u64) -> (v: Vec<char>)
    ensures
        v@ == decimal_spec(n as nat),
    decreases n,
{
    if n < 10 {
        let mut v = Vec::new();
        v.push(digit_exec(n));
        v
    } else {
        let mut v = decimal_chars(n / 10);
        v.push(digit_exec(n % 10));
        v
    }
}

/// `u64::to_string`.
pub fn u64_to_string(n: u64) -> (s: String)
    ensures
        s@ == decimal_spec(n as nat),
{
    let v = decimal_chars(n);
    string_of(v.as_slice())
}

/// `i32::to_string`.
pub fn i32_to_string(n: i32) -> (s: String)
    ensures
        s@ == signed_decimal_spec(n as int),
{
    if n < 0 {
        let m: i64 = -(n as i64);
        let v = decimal_chars(m as u64);
        let mut s = owned("-");
        let t = string_of(v.as_slice());
        push_str(&mut s, t.as_str());
        proof { reveal_strlit("-"); }
        s
    } else {
        u64_to_string(n as u64)
    }
}

/// The unit in which a byte count is shown: how many times it is divided
/// by 1024 (at most three times, while the value is at least 1024) and the
/// unit's name.
pub open spec fn byte_unit_spec(bytes: u64) -> (u32, Seq<char>) {
    if bytes >= 1024 * 1024 * 1024 {
        (3, "GB"@)
    } else if bytes >= 1024 * 1024 {
        (2, "MB"@)
    } else if bytes >= 1024 {
        (1, "KB"@)
    } else {
        (0, "B"@)
    }
}

/// The unit of `format_bytes`: the power of 1024 that the count is divided
/// by, and the unit's name (`B`, `KB`, `MB` or `GB`).
pub fn byte_unit(bytes: u64) -> (r: (u32, String))
    ensures
        r.0 == byte_unit_spec(bytes).0,
        r.1@ == byte_unit_spec(bytes).1,
{
    if bytes >= 1024 * 1024 * 1024 {
        (3, owned("GB"))
    } else if bytes >= 1024 * 1024 {
        (2, owned("MB"))
    } else if bytes >= 1024 {
        (1, owned("KB"))
    } else {
        (0, owned("B"))
    }
}

} // verus!
