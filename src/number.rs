//! Decimal integers as the header text writes them.
use vstd::prelude::*;

verus! {

pub open spec fn is_digit(b: u8) -> bool {
    48 <= b <= 57
}

/// Value of a string of decimal digits.
pub open spec fn digits_value(s: Seq<u8>) -> nat
    decreases s.len(),
{
    if s.len() == 0 {
        0
    } else {
        digits_value(s.drop_last()) * 10 + (s.last() - 48) as nat
    }
}

pub open spec fn all_digits(s: Seq<u8>) -> bool {
    forall|i: int| 0 <= i < s.len() ==> is_digit(#[trigger] s[i])
}

/// The non-negative number a non-empty run of digits spells, if it is one.
pub open spec fn unsigned_named(s: Seq<u8>) -> Option<nat> {
    if s.len() > 0 && all_digits(s) {
        Some(digits_value(s))
    } else {
        None
    }
}

/// The integer a token spells: an optional sign, then at least one digit.
pub open spec fn integer_named(s: Seq<u8>) -> Option<int> {
    if s.len() > 0 && s[0] == 45 {
        match unsigned_named(s.drop_first()) {
            Some(v) => Some(-v),
            None => None,
        }
    } else if s.len() > 0 && s[0] == 43 {
        match unsigned_named(s.drop_first()) {
            Some(v) => Some(v as int),
            None => None,
        }
    } else {
        match unsigned_named(s) {
            Some(v) => Some(v as int),
            None => None,
        }
    }
}

proof fn lemma_digits_prefix_grows(s: Seq<u8>, i: int)
    requires
        0 <= i <= s.len(),
        all_digits(s),
    ensures
        digits_value(s.subrange(0, i)) <= digits_value(s),
    decreases s.len() - i,
{
    if i < s.len() {
        lemma_digits_prefix_grows(s, i + 1);
        let p = s.subrange(0, i + 1);
        assert(p.drop_last() =~= s.subrange(0, i));
    } else {
        assert(s.subrange(0, i) =~= s);
    }
}

/// Reads a run of digits whose value is at most `limit`; `None` when the
/// run is empty, holds another byte or exceeds `limit`.
pub fn parse_unsigned(s: &[u8], from: usize, limit: u64) -> (r: Option<u64>)
    requires
        from <= s@.len(),
    ensures
        ({
            let t = s@.subrange(from as int, s@.len() as int);
            match unsigned_named(t) {
                Some(v) => if v <= limit {
                    r == Some(v as u64)
                } else {
                    r is None
                },
                None => r is None,
            }
        }),
{
    let ghost t = s@.subrange(from as int, s@.len() as int);
    if from == s.len() {
        return None;
    }
    let mut v: u128 = 0;
    let mut i: usize = from;
    while i < s.len()
        invariant
            from <= i <= s@.len(),
            t == s@.subrange(from as int, s@.len() as int),
            all_digits(t.subrange(0, i - from)),
            v == digits_value(t.subrange(0, i - from)),
            v <= limit,
        decreases s@.len() - i,
    {
        let b = s[i];
        if b < 48 || b > 57 {
            assert(t[i - from] == b);
            return None;
        }
        let ghost p = t.subrange(0, i + 1 - from);
        assert(p.drop_last() =~= t.subrange(0, i - from));
        v = v * 10 + (b - 48) as u128;
        i = i + 1;
        if v > limit as u128 {
            proof {
                assert(all_digits(p));
                if all_digits(t) {
                    lemma_digits_prefix_grows(t, i - from);
                }
            }
            return None;
        }
    }
    assert(t.subrange(0, i - from) =~= t);
    Some(v as u64)
}

/// Reads an optionally signed decimal integer that fits in an `i64`.
pub fn parse_i64(s: &[u8]) -> (r: Option<i64>)
    ensures
        match integer_named(s@) {
            Some(v) => if i64::MIN <= v <= i64::MAX {
                r == Some(v as i64)
            } else {
                r is None
            },
            None => r is None,
        },
{
    if s.len() > 0 && s[0] == 45 {
        assert(s@.drop_first() =~= s@.subrange(1, s@.len() as int));
        match parse_unsigned(s, 1, 0x8000_0000_0000_0000) {
            Some(v) => if v == 0x8000_0000_0000_0000 {
                Some(i64::MIN)
            } else {
                Some(-(v as i64))
            },
            None => None,
        }
    } else {
        let from: usize = if s.len() > 0 && s[0] == 43 { 1 } else { 0 };
        assert(s@.drop_first() =~= s@.subrange(1, s@.len() as int));
        assert(s@ =~= s@.subrange(0, s@.len() as int));
        match parse_unsigned(s, from, 0x7fff_ffff_ffff_ffff) {
            Some(v) => Some(v as i64),
            None => None,
        }
    }
}


/// End of the run of digits that starts at `i`.
pub open spec fn digits_end(s: Seq<u8>, i: int) -> int
    decreases s.len() - i,
{
    if i < s.len() && is_digit(s[i]) {
        digits_end(s, i + 1)
    } else {
        i
    }
}

pub open spec fn is_sign(b: u8) -> bool {
    b == 43 || b == 45
}

/// ASCII lower case.
pub open spec fn lower(b: u8) -> u8 {
    if 65 <= b <= 90 {
        (b + 32) as u8
    } else {
        b
    }
}

pub open spec fn lower_spells(s: Seq<u8>, i: int, w: Seq<u8>) -> bool {
    s.len() - i == w.len() && forall|k: int| 0 <= k < w.len() ==> lower(#[trigger] s[i + k]) == w[k]
}

/// `inf`, `infinity` or `nan`, in any case, from `i` to the end.
pub open spec fn is_special(s: Seq<u8>, i: int) -> bool {
    lower_spells(s, i, seq![105u8, 110, 102]) || lower_spells(
        s,
        i,
        seq![105u8, 110, 102, 105, 110, 105, 116, 121],
    ) || lower_spells(s, i, seq![110u8, 97, 110])
}

/// An exponent from `i` to the end: `e` or `E`, an optional sign, digits.
pub open spec fn is_exponent(s: Seq<u8>, i: int) -> bool {
    i < s.len() && (s[i] == 101 || s[i] == 69) && {
        let q = if i + 1 < s.len() && is_sign(s[i + 1]) { i + 2 } else { i + 1 };
        digits_end(s, q) == s.len() && s.len() > q
    }
}

/// A decimal number from `i` to the end: digits with an optional point
/// and at least one digit, then an optional exponent.
pub open spec fn is_number(s: Seq<u8>, i: int) -> bool {
    let j = digits_end(s, i);
    if j < s.len() && s[j] == 46 {
        let k = digits_end(s, j + 1);
        (j > i || k > j + 1) && (k == s.len() || is_exponent(s, k))
    } else {
        j > i && (j == s.len() || is_exponent(s, j))
    }
}

/// Text that Rust reads as a floating-point number: an optional sign, then
/// a decimal number or `inf`, `infinity`, `nan` in any case.
pub open spec fn is_float_text(s: Seq<u8>) -> bool {
    let i = if s.len() > 0 && is_sign(s[0]) { 1int } else { 0int };
    is_special(s, i) || is_number(s, i)
}

fn find_digits_end(s: &[u8], i: usize) -> (r: usize)
    requires
        i <= s@.len(),
    ensures
        r == digits_end(s@, i as int),
        i <= r <= s@.len(),
{
    let mut j = i;
    while j < s.len() && s[j] >= 48 && s[j] <= 57
        invariant
            i <= j <= s@.len(),
            digits_end(s@, i as int) == digits_end(s@, j as int),
        decreases s@.len() - j,
    {
        j = j + 1;
    }
    j
}

fn lower_byte(b: u8) -> (r: u8)
    ensures
        r == lower(b),
{
    if 65 <= b && b <= 90 {
        b + 32
    } else {
        b
    }
}

fn lower_is(s: &[u8], i: usize, w: &[u8]) -> (r: bool)
    requires
        i <= s@.len(),
    ensures
        r == lower_spells(s@, i as int, w@),
{
    let slen = s.len();
    if slen - i != w.len() {
        return false;
    }
    let mut k: usize = 0;
    while k < w.len()
        invariant
            slen == s@.len(),
            i <= s@.len(),
            s@.len() - i == w@.len(),
            0 <= k <= w@.len(),
            forall|m: int| 0 <= m < k ==> lower(#[trigger] s@[i + m]) == w@[m],
        decreases w@.len() - k,
    {
        if lower_byte(s[i + k]) != w[k] {
            return false;
        }
        k = k + 1;
    }
    true
}

fn exponent_at(s: &[u8], i: usize) -> (r: bool)
    requires
        i <= s@.len(),
    ensures
        r == is_exponent(s@, i as int),
{
    if i >= s.len() || !(s[i] == 101 || s[i] == 69) {
        return false;
    }
    let q: usize = if i + 1 < s.len() && (s[i + 1] == 43 || s[i + 1] == 45) { i + 2 } else { i + 1 };
    let e = find_digits_end(s, q);
    e == s.len() && s.len() > q
}

/// Whether Rust reads the text as a floating-point number.
pub fn float_text(s: &[u8]) -> (r: bool)
    ensures
        r == is_float_text(s@),
{
    let i: usize = if s.len() > 0 && (s[0] == 43 || s[0] == 45) { 1 } else { 0 };
    let inf: [u8; 3] = [105, 110, 102];
    let infinity: [u8; 8] = [105, 110, 102, 105, 110, 105, 116, 121];
    let nan: [u8; 3] = [110, 97, 110];
    assert(inf@ =~= seq![105u8, 110, 102]);
    assert(infinity@ =~= seq![105u8, 110, 102, 105, 110, 105, 116, 121]);
    assert(nan@ =~= seq![110u8, 97, 110]);
    if lower_is(s, i, inf.as_slice()) || lower_is(s, i, infinity.as_slice()) || lower_is(s, i, nan.as_slice()) {
        return true;
    }
    let j = find_digits_end(s, i);
    if j < s.len() && s[j] == 46 {
        let k = find_digits_end(s, j + 1);
        (j > i || k > j + 1) && (k == s.len() || exponent_at(s, k))
    } else {
        j > i && (j == s.len() || exponent_at(s, j))
    }
}

} // verus!
