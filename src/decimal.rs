use vstd::prelude::*;
use crate::bytes::{find_byte, lemma_find_byte, lemma_find_byte_is};

verus! {

/// Bound on the integer part of a reported number (exclusive).
pub const INT_PART_LIMIT: u64 = 100_000_000_000_000;

pub open spec fn is_digit(b: u8) -> bool {
    48u8 <= b <= 57u8
}

pub open spec fn all_digits(s: Seq<u8>) -> bool {
    forall|i: int| 0 <= i < s.len() ==> is_digit(#[trigger] s[i])
}

/// Value of a run of decimal digits.
pub open spec fn digits_val(s: Seq<u8>) -> nat
    decreases s.len(),
{
    if s.len() == 0 {
        0
    } else {
        digits_val(s.drop_last()) * 10 + (s.last() - 48u8) as nat
    }
}

/// The first four fractional digits as ten-thousandths, missing ones counting as zero.
pub open spec fn frac4(d: Seq<u8>) -> nat {
    digits_val((d + seq![48u8, 48u8, 48u8, 48u8]).take(4))
}

/// An unsigned decimal number (digits, optionally a point and more digits, with at
/// least one digit in all) in ten-thousandths; digits beyond the fourth
/// fractional one are dropped.
pub open spec fn unsigned_fixed(t: Seq<u8>) -> Option<int> {
    let p = find_byte(t, 46u8);
    let d1 = t.take(p as int);
    let d2 = if p < t.len() { t.skip(p + 1int) } else { Seq::empty() };
    if all_digits(d1) && all_digits(d2) && d1.len() + d2.len() > 0 && digits_val(d1)
        < INT_PART_LIMIT {
        Some((digits_val(d1) * 10000 + frac4(d2)) as int)
    } else {
        None
    }
}

/// A decimal number with an optional leading minus sign, in ten-thousandths.
pub open spec fn fixed_value(t: Seq<u8>) -> Option<int> {
    if t.len() > 0 && t[0] == 45u8 {
        match unsigned_fixed(t.drop_first()) {
            Some(v) => Some(-v),
            None => None,
        }
    } else {
        unsigned_fixed(t)
    }
}

proof fn lemma_digits_prefix(s: Seq<u8>, k: int)
    requires
        0 <= k <= s.len(),
        all_digits(s),
    ensures
        digits_val(s.take(k)) <= digits_val(s),
    decreases s.len(),
{
    if k < s.len() {
        assert(s.take(k) =~= s.drop_last().take(k));
        lemma_digits_prefix(s.drop_last(), k);
    } else {
        assert(s.take(k) =~= s);
    }
}

/// Parses `t[start..]` as an unsigned decimal number in ten-thousandths.
fn parse_unsigned(t: &Vec<u8>, start: usize) -> (r: Option<u64>)
    requires
        start <= t@.len(),
    ensures
        match unsigned_fixed(t@.skip(start as int)) {
            Some(v) => r is Some && r->Some_0 as int == v,
            None => r is None,
        },
        r is Some ==> r->Some_0 < 1_000_000_000_000_000_000u64,
{
    let ghost u = t@.skip(start as int);
    let n = t.len();
    let mut i: usize = start;
    let mut acc: u64 = 0;
    while i < n && t[i] != 46u8
        invariant
            start <= i <= n,
            n == t@.len(),
            u == t@.skip(start as int),
            all_digits(u.take(i - start)),
            forall|j: int| 0 <= j < i - start ==> u[j] != 46u8,
            acc as nat == digits_val(u.take(i - start)),
            acc < INT_PART_LIMIT,
        decreases n - i,
    {
        let b = t[i];
        if b < 48u8 || b > 57u8 {
            proof {
                lemma_find_byte(u, 46u8);
                assert(u[i - start] == b);
                if find_byte(u, 46u8) > i - start {
                    assert(u.take(find_byte(u, 46u8) as int)[i - start] == b);
                }
            }
            return None;
        }
        let ghost k = (i - start) as int;
        assert(u.take(k + 1).drop_last() =~= u.take(k));
        if acc >= INT_PART_LIMIT / 10 {
            proof {
                lemma_find_byte(u, 46u8);
                let p = find_byte(u, 46u8) as int;
                if p > k && all_digits(u.take(p)) {
                    assert(u.take(p).take(k + 1) =~= u.take(k + 1));
                    lemma_digits_prefix(u.take(p), k + 1);
                } else if p <= k {
                    assert(u[p] == 46u8);
                    assert(false);
                }
            }
            return None;
        }
        acc = acc * 10 + (b - 48u8) as u64;
        i = i + 1;
        proof {
            assert forall|j: int| 0 <= j < k + 1 implies is_digit(#[trigger] u.take(k + 1)[j]) by {
                if j < k {
                    assert(u.take(k + 1)[j] == u.take(k)[j]);
                }
            }
        }
    }
    let ghost p = (i - start) as int;
    proof {
        lemma_find_byte_is(u, 46u8, p as nat);
        assert(u.take(p) =~= u.take(i - start));
    }
    let mut f: u64 = 0;
    let mut j: usize = 0;
    let fs: usize = if i < n { i + 1 } else { n };
    let ghost d2 = if p < u.len() { u.skip(p + 1) } else { Seq::<u8>::empty() };
    assert(d2 =~= t@.skip(fs as int));
    let ghost padded = d2 + seq![48u8, 48u8, 48u8, 48u8];
    while j < 4
        invariant
            j <= 4,
            fs <= n,
            n == t@.len(),
            d2 == t@.skip(fs as int),
            u == t@.skip(start as int),
            find_byte(u, 46u8) == p,
            d2 == (if p < u.len() { u.skip(p + 1) } else { Seq::<u8>::empty() }),
            all_digits(u.take(p)),
            acc as nat == digits_val(u.take(p)),
            acc < INT_PART_LIMIT,
            fs as int == (if i < n { i + 1 } else { n as int }),
            start <= i <= n,
            p == i - start,
            padded == d2 + seq![48u8, 48u8, 48u8, 48u8],
            f as nat == digits_val(padded.take(j as int)),
            f < 10000,
            j == 0 ==> f == 0,
            j == 1 ==> f < 10,
            j == 2 ==> f < 100,
            j == 3 ==> f < 1000,
        decreases 4 - j,
    {
        let b: u8 = if j < n - fs { t[fs + j] } else { 48u8 };
        assert(padded[j as int] == b);
        if b < 48u8 || b > 57u8 {
            proof {
                assert(d2[j as int] == b);
                assert(!is_digit(d2[j as int]));
            }
            return None;
        }
        assert(padded.take(j + 1).drop_last() =~= padded.take(j as int));
        f = f * 10 + (b - 48u8) as u64;
        j = j + 1;
    }
    assert(frac4(d2) == digits_val(padded.take(4)));
    let mut k: usize = fs;
    while k < n
        invariant
            fs <= k <= n,
            n == t@.len(),
            d2 == t@.skip(fs as int),
            u == t@.skip(start as int),
            find_byte(u, 46u8) == p,
            d2 == (if p < u.len() { u.skip(p + 1) } else { Seq::<u8>::empty() }),
            all_digits(u.take(p)),
            acc as nat == digits_val(u.take(p)),
            acc < INT_PART_LIMIT,
            fs as int == (if i < n { i + 1 } else { n as int }),
            start <= i <= n,
            p == i - start,
            f < 10000,
            frac4(d2) == f as nat,
            forall|m: int| 0 <= m < k - fs ==> is_digit(#[trigger] d2[m]),
        decreases n - k,
    {
        if t[k] < 48u8 || t[k] > 57u8 {
            assert(d2[k - fs] == t@[k as int]);
            assert(!is_digit(d2[k - fs]));
            return None;
        }
        k = k + 1;
    }
    assert(u.take(p) =~= u.take(i - start));
    if i == start && fs == n {
        return None;
    }
    assert(frac4(d2) == digits_val(padded.take(4)));
    Some(acc * 10000 + f)
}

/// Parses a decimal number with an optional leading minus sign into ten-thousandths.
pub fn parse_fixed(t: &Vec<u8>) -> (r: Option<i64>)
    ensures
        match fixed_value(t@) {
            Some(v) => r is Some && r->Some_0 as int == v,
            None => r is None,
        },
{
    if t.len() > 0 && t[0] == 45u8 {
        assert(t@.skip(1) =~= t@.drop_first());
        match parse_unsigned(t, 1) {
            Some(v) => Some(-(v as i64)),
            None => None,
        }
    } else {
        assert(t@.skip(0) =~= t@);
        match parse_unsigned(t, 0) {
            Some(v) => Some(v as i64),
            None => None,
        }
    }
}

} // verus!
