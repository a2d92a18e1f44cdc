//! Character-level scanning over a slice of the input: whitespace,
//! identifiers, digit runs, quoted strings, and the numeric value of a
//! digit run.  Every executable scanner returns exactly what its
//! specification-level twin computes.

use vstd::prelude::*;

verus! {

/// Whitespace inside a line; the newline itself terminates lines and is
/// never skipped here.
pub open spec fn is_ws(c: char) -> bool {
    c == ' ' || c == '\t' || c == '\r'
}

/// Characters allowed in an entity, attribute or discriminator name.
pub open spec fn is_name_char(c: char) -> bool {
    ('a' as u32) <= (c as u32) <= ('z' as u32)
    || ('A' as u32) <= (c as u32) <= ('Z' as u32)
    || ('0' as u32) <= (c as u32) <= ('9' as u32)
    || c == '_'
}

pub open spec fn is_digit(c: char) -> bool {
    ('0' as u32) <= (c as u32) <= ('9' as u32)
}

/// The first position in `[i, e)` holding a non-whitespace character, or
/// `e` when there is none.
pub open spec fn skip_ws(s: Seq<char>, i: int, e: int) -> int
    decreases e - i,
{
    if i < e && 0 <= i < s.len() && is_ws(s[i]) {
        skip_ws(s, i + 1, e)
    } else {
        i
    }
}

pub proof fn lemma_skip_ws_bounds(s: Seq<char>, i: int, e: int)
    requires
        0 <= i <= e <= s.len(),
    ensures
        i <= skip_ws(s, i, e) <= e,
        skip_ws(s, i, e) < e ==> !is_ws(s[skip_ws(s, i, e)]),
    decreases e - i,
{
    if i < e && is_ws(s[i]) {
        lemma_skip_ws_bounds(s, i + 1, e);
    }
}

/// The end of the run of name characters starting at `i`, capped at `e`.
pub open spec fn scan_name(s: Seq<char>, i: int, e: int) -> int
    decreases e - i,
{
    if i < e && 0 <= i < s.len() && is_name_char(s[i]) {
        scan_name(s, i + 1, e)
    } else {
        i
    }
}

pub proof fn lemma_scan_name_bounds(s: Seq<char>, i: int, e: int)
    requires
        0 <= i <= e <= s.len(),
    ensures
        i <= scan_name(s, i, e) <= e,
    decreases e - i,
{
    if i < e && is_name_char(s[i]) {
        lemma_scan_name_bounds(s, i + 1, e);
    }
}

/// The end of the run of decimal digits starting at `i`, capped at `e`.
pub open spec fn scan_digits(s: Seq<char>, i: int, e: int) -> int
    decreases e - i,
{
    if i < e && 0 <= i < s.len() && is_digit(s[i]) {
        scan_digits(s, i + 1, e)
    } else {
        i
    }
}

pub proof fn lemma_scan_digits_bounds(s: Seq<char>, i: int, e: int)
    requires
        0 <= i <= e <= s.len(),
    ensures
        i <= scan_digits(s, i, e) <= e,
        forall|k: int| i <= k < scan_digits(s, i, e) ==> is_digit(s[k]),
    decreases e - i,
{
    if i < e && is_digit(s[i]) {
        lemma_scan_digits_bounds(s, i + 1, e);
    }
}

/// The first position in `[i, e)` holding `target`, or `e` when there is
/// none.
pub open spec fn find_char(s: Seq<char>, i: int, e: int, target: char) -> int
    decreases e - i,
{
    if i < e && 0 <= i < s.len() {
        if s[i] == target {
            i
        } else {
            find_char(s, i + 1, e, target)
        }
    } else {
        e
    }
}

pub proof fn lemma_find_char_bounds(s: Seq<char>, i: int, e: int, target: char)
    requires
        0 <= i <= e <= s.len(),
    ensures
        i <= find_char(s, i, e, target) <= e,
        find_char(s, i, e, target) < e ==> s[find_char(s, i, e, target)] == target,
    decreases e - i,
{
    if i < e && s[i] != target {
        lemma_find_char_bounds(s, i + 1, e, target);
    }
}

/// The value of the digit run `[i, e)` read left to right on top of `acc`,
/// saturated to `cap + 1` as soon as it exceeds `cap`.
pub open spec fn sat_value(s: Seq<char>, i: int, e: int, acc: nat, cap: nat) -> nat
    decreases e - i,
{
    if i < e && 0 <= i < s.len() {
        let d = (s[i] as u32 - '0' as u32) as nat;
        let grown = acc * 10 + d;
        let acc2 = if grown > cap {
            (cap + 1) as nat
        } else {
            grown
        };
        sat_value(s, i + 1, e, acc2, cap)
    } else {
        acc
    }
}

pub proof fn lemma_sat_value_bound(s: Seq<char>, i: int, e: int, acc: nat, cap: nat)
    requires
        acc <= cap + 1,
    ensures
        sat_value(s, i, e, acc, cap) <= cap + 1,
    decreases e - i,
{
    if i < e && 0 <= i < s.len() {
        let d = (s[i] as u32 - '0' as u32) as nat;
        let grown = acc * 10 + d;
        let acc2: nat = if grown > cap {
            (cap + 1) as nat
        } else {
            grown
        };
        lemma_sat_value_bound(s, i + 1, e, acc2, cap);
    }
}

/// Executable twin of [`skip_ws`].
pub fn skip_ws_at(s: &str, i: usize, e: usize) -> (r: usize)
    requires
        i <= e <= s@.len(),
    ensures
        r == skip_ws(s@, i as int, e as int),
        i <= r <= e,
    decreases e - i,
{
    proof {
        lemma_skip_ws_bounds(s@, i as int, e as int);
    }
    if i < e {
        let c = s.get_char(i);
        if c == ' ' || c == '\t' || c == '\r' {
            return skip_ws_at(s, i + 1, e);
        }
    }
    i
}

fn name_char(c: char) -> (r: bool)
    ensures
        r == is_name_char(c),
{
    let u = c as u32;
    (u >= 'a' as u32 && u <= 'z' as u32) || (u >= 'A' as u32 && u <= 'Z' as u32) || (u >= '0'
        as u32 && u <= '9' as u32) || c == '_'
}

/// Executable twin of [`scan_name`].
pub fn scan_name_at(s: &str, i: usize, e: usize) -> (r: usize)
    requires
        i <= e <= s@.len(),
    ensures
        r == scan_name(s@, i as int, e as int),
        i <= r <= e,
    decreases e - i,
{
    proof {
        lemma_scan_name_bounds(s@, i as int, e as int);
    }
    if i < e && name_char(s.get_char(i)) {
        scan_name_at(s, i + 1, e)
    } else {
        i
    }
}

/// Executable twin of [`scan_digits`].
pub fn scan_digits_at(s: &str, i: usize, e: usize) -> (r: usize)
    requires
        i <= e <= s@.len(),
    ensures
        r == scan_digits(s@, i as int, e as int),
        i <= r <= e,
    decreases e - i,
{
    proof {
        lemma_scan_digits_bounds(s@, i as int, e as int);
    }
    if i < e {
        let u = s.get_char(i) as u32;
        if u >= '0' as u32 && u <= '9' as u32 {
            return scan_digits_at(s, i + 1, e);
        }
    }
    i
}

/// Executable twin of [`find_char`].
pub fn find_char_at(s: &str, i: usize, e: usize, target: char) -> (r: usize)
    requires
        i <= e <= s@.len(),
    ensures
        r == find_char(s@, i as int, e as int, target),
        i <= r <= e,
    decreases e - i,
{
    proof {
        lemma_find_char_bounds(s@, i as int, e as int, target);
    }
    if i < e {
        if s.get_char(i) == target {
            i
        } else {
            find_char_at(s, i + 1, e, target)
        }
    } else {
        e
    }
}

/// Executable twin of [`sat_value`]; `cap + 1` marks a value past `cap`.
pub fn sat_value_at(s: &str, i: usize, e: usize, acc: u128, cap: u128) -> (r: u128)
    requires
        i <= e <= s@.len(),
        forall|k: int| i <= k < e ==> is_digit(s@[k]),
        acc <= cap + 1,
        cap <= u64::MAX as u128,
    ensures
        r as nat == sat_value(s@, i as int, e as int, acc as nat, cap as nat),
        r <= cap + 1,
    decreases e - i,
{
    proof {
        lemma_sat_value_bound(s@, i as int, e as int, acc as nat, cap as nat);
    }
    if i < e {
        let d = (s.get_char(i) as u32 - '0' as u32) as u128;
        let grown = acc * 10 + d;
        let acc2 = if grown > cap {
            cap + 1
        } else {
            grown
        };
        sat_value_at(s, i + 1, e, acc2, cap)
    } else {
        acc
    }
}

} // verus!
