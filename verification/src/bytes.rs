//! Byte-string ordering and decimal parsing.
//!
//! Entity names are kept as raw byte strings exactly as read from the
//! accounting hierarchy; they are ordered byte-lexicographically, which is
//! the same order `String` comparison gives on UTF-8 text.

use vstd::prelude::*;

verus! {

/// Lexicographic strictly-less-than on byte strings, comparing from index `i`
/// on under the assumption that the first `i` bytes agree.
pub open spec fn lex_lt_from(a: Seq<u8>, b: Seq<u8>, i: int) -> bool
    decreases b.len() - i,
{
    if i >= b.len() {
        false
    } else if i >= a.len() {
        true
    } else if a[i] < b[i] {
        true
    } else if a[i] > b[i] {
        false
    } else {
        lex_lt_from(a, b, i + 1)
    }
}

/// Lexicographic strictly-less-than on byte strings.
pub open spec fn lex_lt(a: Seq<u8>, b: Seq<u8>) -> bool {
    lex_lt_from(a, b, 0)
}

pub proof fn lemma_lex_lt_from_trans(a: Seq<u8>, b: Seq<u8>, c: Seq<u8>, i: int)
    requires
        0 <= i,
        lex_lt_from(a, b, i),
        lex_lt_from(b, c, i),
    ensures
        lex_lt_from(a, c, i),
    decreases c.len() - i,
{
    if i >= b.len() {
        // lex_lt_from(a, b, i) would be false
        assert(false);
    } else if i >= c.len() {
        assert(!lex_lt_from(b, c, i));
    } else if i >= a.len() {
        assert(lex_lt_from(a, c, i));
    } else {
        if a[i] == b[i] && b[i] == c[i] {
            lemma_lex_lt_from_trans(a, b, c, i + 1);
        }
    }
}

/// Strict order is irreflexive: no byte string is below itself.
pub proof fn lemma_lex_lt_from_irrefl(a: Seq<u8>, i: int)
    requires
        0 <= i,
    ensures
        !lex_lt_from(a, a, i),
    decreases a.len() - i,
{
    if i < a.len() {
        lemma_lex_lt_from_irrefl(a, i + 1);
    }
}

pub proof fn lemma_lex_lt_trans(a: Seq<u8>, b: Seq<u8>, c: Seq<u8>)
    requires
        lex_lt(a, b),
        lex_lt(b, c),
    ensures
        lex_lt(a, c),
{
    lemma_lex_lt_from_trans(a, b, c, 0);
}

pub proof fn lemma_lex_lt_neq(a: Seq<u8>, b: Seq<u8>)
    requires
        lex_lt(a, b),
    ensures
        a != b,
{
    if a == b {
        lemma_lex_lt_from_irrefl(a, 0);
    }
}

/// Three-way byte-lexicographic comparison: -1, 0 or 1.
pub fn lex_cmp(a: &Vec<u8>, b: &Vec<u8>) -> (r: i8)
    ensures
        r == -1 || r == 0 || r == 1,
        (r == 0) <==> (a@ == b@),
        (r == -1) <==> lex_lt(a@, b@),
        (r == 1) <==> lex_lt(b@, a@),
{
    let mut i: usize = 0;
    while i < a.len() && i < b.len()
        invariant
            0 <= i <= a.len(),
            0 <= i <= b.len(),
            forall|j: int| 0 <= j < i ==> a@[j] == b@[j],
            lex_lt(a@, b@) == lex_lt_from(a@, b@, i as int),
            lex_lt(b@, a@) == lex_lt_from(b@, a@, i as int),
        decreases a.len() - i,
    {
        if a[i] < b[i] {
            return -1;
        }
        if a[i] > b[i] {
            return 1;
        }
        i = i + 1;
    }
    if a.len() == b.len() {
        proof {
            assert(a@ =~= b@);
            lemma_lex_lt_from_irrefl(a@, i as int);
        }
        0
    } else if a.len() < b.len() {
        proof {
            assert(a@.len() != b@.len());
            assert(a@ != b@);
        }
        -1
    } else {
        proof {
            assert(a@ != b@);
        }
        1
    }
}

/// A decimal digit byte, `'0'` through `'9'`.
pub open spec fn is_digit(b: u8) -> bool {
    48 <= b <= 57
}

pub open spec fn all_digits(s: Seq<u8>) -> bool {
    forall|i: int| 0 <= i < s.len() ==> is_digit(#[trigger] s[i])
}

/// The number a string of decimal digits denotes.
pub open spec fn dec_value(s: Seq<u8>) -> int
    decreases s.len(),
{
    if s.len() == 0 {
        0
    } else {
        dec_value(s.drop_last()) * 10 + (s.last() - 48)
    }
}

proof fn lemma_dec_value_take_step(s: Seq<u8>, k: int)
    requires
        0 <= k < s.len(),
    ensures
        dec_value(s.take(k + 1)) == dec_value(s.take(k)) * 10 + (s[k] - 48),
{
    assert(s.take(k + 1).drop_last() =~= s.take(k));
    assert(s.take(k + 1).last() == s[k]);
}

pub proof fn lemma_dec_value_nonneg(s: Seq<u8>)
    requires
        all_digits(s),
    ensures
        dec_value(s) >= 0,
    decreases s.len(),
{
    if s.len() > 0 {
        assert(all_digits(s.drop_last()));
        lemma_dec_value_nonneg(s.drop_last());
    }
}

/// A longer digit string denotes at least as much as any of its prefixes.
proof fn lemma_dec_value_prefix_le(s: Seq<u8>, k: int)
    requires
        all_digits(s),
        0 <= k <= s.len(),
    ensures
        dec_value(s.take(k)) <= dec_value(s),
    decreases s.len() - k,
{
    if k < s.len() {
        lemma_dec_value_take_step(s, k);
        assert(all_digits(s.take(k)));
        lemma_dec_value_nonneg(s.take(k));
        lemma_dec_value_prefix_le(s, k + 1);
        assert(dec_value(s.take(k)) * 10 >= dec_value(s.take(k))) by (nonlinear_arith)
            requires dec_value(s.take(k)) >= 0;
    } else {
        assert(s.take(k) =~= s);
    }
}

/// What parsing an unsigned decimal integer accepts: an optional leading
/// `'+'`, then one or more digits, denoting a value that fits in a `u64`.
pub open spec fn parse_u64_spec(s: Seq<u8>) -> Option<u64> {
    let digits = if s.len() > 0 && s[0] == 43 {
        s.skip(1)
    } else {
        s
    };
    if digits.len() > 0 && all_digits(digits) && dec_value(digits) <= u64::MAX {
        Some(dec_value(digits) as u64)
    } else {
        None
    }
}

/// Parse an unsigned decimal integer, rejecting overflow and stray bytes.
pub fn parse_u64(s: &Vec<u8>) -> (r: Option<u64>)
    ensures
        r == parse_u64_spec(s@),
{
    let off: usize = if s.len() > 0 && s[0] == 43 {
        1
    } else {
        0
    };
    let ghost digits: Seq<u8> = if s@.len() > 0 && s@[0] == 43 {
        s@.skip(1)
    } else {
        s@
    };
    assert(digits.len() == s@.len() - off);
    assert(forall|j: int| 0 <= j < digits.len() ==> digits[j] == s@[j + off]);
    if off >= s.len() {
        return None;
    }
    let mut i: usize = off;
    let mut val: u64 = 0;
    while i < s.len()
        invariant
            off <= i <= s.len(),
            off <= 1,
            digits == (if s@.len() > 0 && s@[0] == 43 {
                s@.skip(1)
            } else {
                s@
            }),
            digits.len() == s@.len() - off,
            forall|j: int| 0 <= j < digits.len() ==> digits[j] == s@[j + off],
            all_digits(digits.take(i - off)),
            val == dec_value(digits.take(i - off)),
        decreases s.len() - i,
    {
        let d = s[i];
        if d < 48 || d > 57 {
            proof {
                assert(digits[i - off] == d);
                assert(!all_digits(digits));
            }
            return None;
        }
        let dd: u64 = (d - 48) as u64;
        proof {
            lemma_dec_value_take_step(digits, i - off);
        }
        if val > (u64::MAX - dd) / 10 {
            proof {
                assert(val * 10 + dd > u64::MAX) by (nonlinear_arith)
                    requires
                        val > (u64::MAX - dd) / 10,
                        0 <= dd <= 9;
                if all_digits(digits) {
                    lemma_dec_value_prefix_le(digits, i - off + 1);
                    assert(dec_value(digits) > u64::MAX);
                }
            }
            return None;
        }
        proof {
            assert(val * 10 + dd <= u64::MAX) by (nonlinear_arith)
                requires
                    val <= (u64::MAX - dd) / 10,
                    0 <= dd <= 9;
        }
        val = val * 10 + dd;
        i = i + 1;
    }
    proof {
        assert(digits.take(i - off) =~= digits);
    }
    Some(val)
}

/// Copy a byte string.
pub fn clone_bytes(v: &Vec<u8>) -> (r: Vec<u8>)
    ensures
        r@ == v@,
{
    let mut r: Vec<u8> = Vec::new();
    let mut i: usize = 0;
    while i < v.len()
        invariant
            0 <= i <= v.len(),
            r@ == v@.take(i as int),
        decreases v.len() - i,
    {
        r.push(v[i]);
        proof {
            assert(v@.take(i as int).push(v@[i as int]) =~= v@.take(i + 1));
        }
        i = i + 1;
    }
    proof {
        assert(v@.take(i as int) =~= v@);
    }
    r
}

/// Copy `s[from..to]`.
pub fn copy_range(s: &Vec<u8>, from: usize, to: usize) -> (r: Vec<u8>)
    requires
        from <= to <= s@.len(),
    ensures
        r@ == s@.subrange(from as int, to as int),
{
    let mut r: Vec<u8> = Vec::new();
    let mut j: usize = from;
    proof {
        assert(r@ =~= s@.subrange(from as int, from as int));
    }
    while j < to
        invariant
            from <= j <= to <= s@.len(),
            r@ == s@.subrange(from as int, j as int),
        decreases to - j,
    {
        r.push(s[j]);
        proof {
            assert(s@.subrange(from as int, j as int).push(s@[j as int])
                =~= s@.subrange(from as int, j + 1));
        }
        j = j + 1;
    }
    r
}

} // verus!
