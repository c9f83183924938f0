use vstd::prelude::*;
use vstd::slice::{slice_subrange, slice_to_vec};

use crate::text::{byte_strings, is_space};

verus! {

/// Where the line that starts at `i` ends: just past its line feed, or at
/// the end of the input.
pub open spec fn line_end(s: Seq<u8>, i: int) -> int
    decreases s.len() - i,
{
    if i >= s.len() {
        s.len() as int
    } else if s[i] == 10 {
        i + 1
    } else {
        line_end(s, i + 1)
    }
}

/// The first index in `[i, e)` that holds no whitespace, else `e`.
pub open spec fn skip_space(s: Seq<u8>, i: int, e: int) -> int
    decreases e - i,
{
    if i >= e {
        i
    } else if is_space(s[i]) {
        skip_space(s, i + 1, e)
    } else {
        i
    }
}

/// The first index in `[i, e)` that holds whitespace, else `e`.
pub open spec fn token_end(s: Seq<u8>, i: int, e: int) -> int
    decreases e - i,
{
    if i >= e {
        i
    } else if is_space(s[i]) {
        i
    } else {
        token_end(s, i + 1, e)
    }
}

/// The end of `s[b..e]` once trailing whitespace is cut off.
pub open spec fn trim_back(s: Seq<u8>, b: int, e: int) -> int
    decreases e - b,
{
    if e <= b {
        b
    } else if is_space(s[e - 1]) {
        trim_back(s, b, e - 1)
    } else {
        e
    }
}

/// The first colon in `[i, e)`, else `e`.
pub open spec fn colon_at(s: Seq<u8>, i: int, e: int) -> int
    decreases e - i,
{
    if i >= e {
        e
    } else if s[i] == 58 {
        i
    } else {
        colon_at(s, i + 1, e)
    }
}

pub(crate) fn find_line_end(s: &[u8], i: usize) -> (r: usize)
    requires
        i <= s@.len(),
    ensures
        r == line_end(s@, i as int),
        i <= r <= s@.len(),
        i < s@.len() ==> i < r,
{
    let mut j: usize = i;
    while j < s.len()
        invariant
            i <= j <= s@.len(),
            line_end(s@, j as int) == line_end(s@, i as int),
        decreases s@.len() - j,
    {
        if s[j] == 10u8 {
            return j + 1;
        }
        j = j + 1;
    }
    j
}

pub(crate) fn skip_spaces(s: &[u8], i: usize, e: usize) -> (r: usize)
    requires
        i <= e <= s@.len(),
    ensures
        r == skip_space(s@, i as int, e as int),
        i <= r <= e,
{
    let mut j: usize = i;
    while j < e && (9u8 <= s[j] && s[j] <= 13u8 || s[j] == 32u8)
        invariant
            i <= j <= e,
            e <= s@.len(),
            skip_space(s@, j as int, e as int) == skip_space(s@, i as int, e as int),
        decreases e - j,
    {
        j = j + 1;
    }
    j
}

pub(crate) fn find_token_end(s: &[u8], i: usize, e: usize) -> (r: usize)
    requires
        i <= e <= s@.len(),
    ensures
        r == token_end(s@, i as int, e as int),
        i <= r <= e,
{
    let mut j: usize = i;
    while j < e && !(9u8 <= s[j] && s[j] <= 13u8 || s[j] == 32u8)
        invariant
            i <= j <= e,
            e <= s@.len(),
            token_end(s@, j as int, e as int) == token_end(s@, i as int, e as int),
        decreases e - j,
    {
        j = j + 1;
    }
    j
}

pub(crate) fn trim_end(s: &[u8], b: usize, e: usize) -> (r: usize)
    requires
        b <= e <= s@.len(),
    ensures
        r == trim_back(s@, b as int, e as int),
        b <= r <= e,
{
    let mut j: usize = e;
    while j > b && (9u8 <= s[j - 1] && s[j - 1] <= 13u8 || s[j - 1] == 32u8)
        invariant
            b <= j <= e,
            e <= s@.len(),
            trim_back(s@, b as int, j as int) == trim_back(s@, b as int, e as int),
        decreases j - b,
    {
        j = j - 1;
    }
    j
}

pub(crate) fn find_colon(s: &[u8], i: usize, e: usize) -> (r: usize)
    requires
        i <= e <= s@.len(),
    ensures
        r == colon_at(s@, i as int, e as int),
        i <= r <= e,
{
    let mut j: usize = i;
    while j < e && s[j] != 58u8
        invariant
            i <= j <= e,
            e <= s@.len(),
            colon_at(s@, j as int, e as int) == colon_at(s@, i as int, e as int),
        decreases e - j,
    {
        j = j + 1;
    }
    j
}

/// The entries of a list written with ", " between them, read from `v[start..]`
/// with the scan standing at `i`. An empty list has one empty entry.
pub open spec fn list_scan(v: Seq<u8>, start: int, i: int) -> Seq<Seq<u8>>
    decreases v.len() - i,
{
    if i + 1 >= v.len() {
        seq![v.subrange(start, v.len() as int)]
    } else if v[i] == 44 && v[i + 1] == 32 {
        seq![v.subrange(start, i)] + list_scan(v, i + 2, i + 2)
    } else {
        list_scan(v, start, i + 1)
    }
}

/// The entries of a list written with ", " between them.
pub open spec fn split_list(v: Seq<u8>) -> Seq<Seq<u8>> {
    list_scan(v, 0, 0)
}

/// Splits `v` on ", ".
pub(crate) fn split_comma_list(v: &[u8]) -> (r: Vec<Vec<u8>>)
    ensures
        byte_strings(r@) == split_list(v@),
{
    let mut out: Vec<Vec<u8>> = Vec::new();
    let mut start: usize = 0;
    let mut i: usize = 0;
    while v.len() > 0 && i < v.len() - 1
        invariant
            start <= i <= v@.len(),
            byte_strings(out@) + list_scan(v@, start as int, i as int) == split_list(v@),
        decreases v@.len() - i,
    {
        if v[i] == 44u8 && v[i + 1] == 32u8 {
            let piece = slice_to_vec(slice_subrange(v, start, i));
            assert(byte_strings(out@.push(piece)) == byte_strings(out@) + seq![piece@]);
            out.push(piece);
            i = i + 2;
            start = i;
        } else {
            i = i + 1;
        }
    }
    let piece = slice_to_vec(slice_subrange(v, start, v.len()));
    assert(byte_strings(out@.push(piece)) == byte_strings(out@) + seq![piece@]);
    out.push(piece);
    out
}

/// The value of a string of decimal digits.
pub open spec fn digits_value(d: Seq<u8>) -> nat
    decreases d.len(),
{
    if d.len() == 0 {
        0
    } else {
        digits_value(d.drop_last()) * 10 + (d.last() - 48) as nat
    }
}

pub open spec fn all_digits(d: Seq<u8>) -> bool {
    forall|i: int| 0 <= i < d.len() ==> 48 <= #[trigger] d[i] <= 57
}

/// The digits of a decimal number, past an optional leading '+'.
pub open spec fn unsigned_digits(v: Seq<u8>) -> Seq<u8> {
    if v.len() > 0 && v[0] == 43 {
        v.drop_first()
    } else {
        v
    }
}

/// A non-negative decimal number that fits in 64 bits, optionally led by '+'.
pub open spec fn parse_u64(v: Seq<u8>) -> Option<u64> {
    let d = unsigned_digits(v);
    if d.len() > 0 && all_digits(d) && digits_value(d) <= u64::MAX {
        Some(digits_value(d) as u64)
    } else {
        None
    }
}

proof fn lemma_digits_grow(d: Seq<u8>, j: int)
    requires
        all_digits(d),
        0 <= j <= d.len(),
    ensures
        digits_value(d.subrange(0, j)) <= digits_value(d),
    decreases d.len() - j,
{
    if j < d.len() {
        let a = d.subrange(0, j);
        let b = d.subrange(0, j + 1);
        assert(b.drop_last() == a);
        assert(b.last() == d[j]);
        lemma_digits_grow(d, j + 1);
    } else {
        assert(d.subrange(0, j) == d);
    }
}

/// Reads a non-negative decimal number, as `u64::from_str` does.
pub(crate) fn read_u64(v: &[u8]) -> (r: Option<u64>)
    ensures
        r == parse_u64(v@),
{
    let mut i: usize = 0;
    if v.len() > 0 && v[0] == 43u8 {
        i = 1;
    }
    let ghost d = unsigned_digits(v@);
    assert(d == v@.subrange(i as int, v@.len() as int));
    if i >= v.len() {
        return None;
    }
    let ghost first = i;
    let mut acc: u64 = 0;
    let mut overflow = false;
    while i < v.len()
        invariant
            first <= i <= v@.len(),
            first < v@.len(),
            d == v@.subrange(first as int, v@.len() as int),
            d == unsigned_digits(v@),
            all_digits(v@.subrange(first as int, i as int)),
            !overflow ==> acc as nat == digits_value(v@.subrange(first as int, i as int)),
            overflow ==> digits_value(v@.subrange(first as int, i as int)) > u64::MAX,
        decreases v@.len() - i,
    {
        let c = v[i];
        if c < 48u8 || c > 57u8 {
            assert(d[i - first] == c);
            assert(!all_digits(d));
            return None;
        }
        let ghost pre = v@.subrange(first as int, i as int);
        let ghost next = v@.subrange(first as int, i + 1);
        assert(next.drop_last() == pre);
        assert(next.last() == c);
        assert(all_digits(next)) by {
            assert forall|k: int| 0 <= k < next.len() implies 48 <= #[trigger] next[k] <= 57 by {
                if k < pre.len() {
                    assert(next[k] == pre[k]);
                }
            }
        }
        if !overflow {
            if acc > (u64::MAX - (c - 48u8) as u64) / 10 {
                overflow = true;
                assert(digits_value(next) > u64::MAX) by (nonlinear_arith)
                    requires
                        digits_value(next) == digits_value(pre) * 10 + (c - 48) as nat,
                        acc as nat == digits_value(pre),
                        acc > (u64::MAX - (c - 48u8) as u64) / 10,
                        c >= 48,
                        c <= 57,
                ;
            } else {
                assert(acc * 10 + (c - 48u8) as u64 <= u64::MAX) by (nonlinear_arith)
                    requires
                        acc <= (u64::MAX - (c - 48u8) as u64) / 10,
                        c >= 48,
                        c <= 57,
                ;
                acc = acc * 10 + (c - 48u8) as u64;
            }
        } else {
            assert(digits_value(next) >= digits_value(pre)) by (nonlinear_arith)
                requires
                    digits_value(next) == digits_value(pre) * 10 + (c - 48) as nat,
            ;
        }
        i = i + 1;
    }
    assert(v@.subrange(first as int, i as int) == d);
    if overflow {
        None
    } else {
        Some(acc)
    }
}

} // verus!
