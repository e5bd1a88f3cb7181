//! Little-endian encoding of scalars and the zero-padded decimal text of
//! the vertex-count field.
use vstd::arithmetic::power2::pow2;
use vstd::prelude::*;

use crate::number::{all_digits, digits_value, unsigned_named};
use crate::scalar::{le_nat, wire_value, Scalar};
use byteorder::{ByteOrder, LittleEndian};

verus! {

/// The `w` bytes that hold `v`, least significant first.
pub open spec fn le_bytes(v: nat, w: nat) -> Seq<u8>
    decreases w,
{
    if w == 0 {
        seq![]
    } else {
        seq![(v % 256) as u8] + le_bytes(v / 256, (w - 1) as nat)
    }
}

/// The unsigned number of `w` bytes that stores `v` in two's complement.
pub open spec fn unsigned_of(v: int, w: nat) -> nat {
    if v < 0 {
        (v + pow2(8 * w)) as nat
    } else {
        v as nat
    }
}

/// A scalar's bytes on the wire.
pub open spec fn scalar_bytes(s: Scalar) -> Seq<u8> {
    let w = s.data_type().width();
    le_bytes(unsigned_of(s.value(), w), w)
}

/// Relies on byteorder's `LittleEndian::write_u16`: two bytes, least significant first.
#[verifier::external_body]
fn push_u16(out: &mut Vec<u8>, v: u16)
    ensures
        final(out)@ == old(out)@ + le_bytes(v as nat, 2),
{
    let mut b = [0u8; 2];
    LittleEndian::write_u16(&mut b, v);
    out.extend_from_slice(&b);
}

/// Relies on byteorder's `LittleEndian::write_u32`: four bytes, least significant first.
#[verifier::external_body]
fn push_u32(out: &mut Vec<u8>, v: u32)
    ensures
        final(out)@ == old(out)@ + le_bytes(v as nat, 4),
{
    let mut b = [0u8; 4];
    LittleEndian::write_u32(&mut b, v);
    out.extend_from_slice(&b);
}

/// Relies on byteorder's `LittleEndian::write_u64`: eight bytes, least significant first.
#[verifier::external_body]
fn push_u64(out: &mut Vec<u8>, v: u64)
    ensures
        final(out)@ == old(out)@ + le_bytes(v as nat, 8),
{
    let mut b = [0u8; 8];
    LittleEndian::write_u64(&mut b, v);
    out.extend_from_slice(&b);
}

/// Relies on byteorder's `LittleEndian::write_i16`: two's complement, least significant byte first.
#[verifier::external_body]
fn push_i16(out: &mut Vec<u8>, v: i16)
    ensures
        final(out)@ == old(out)@ + le_bytes(unsigned_of(v as int, 2), 2),
{
    let mut b = [0u8; 2];
    LittleEndian::write_i16(&mut b, v);
    out.extend_from_slice(&b);
}

/// Relies on byteorder's `LittleEndian::write_i32`: two's complement, least significant byte first.
#[verifier::external_body]
fn push_i32(out: &mut Vec<u8>, v: i32)
    ensures
        final(out)@ == old(out)@ + le_bytes(unsigned_of(v as int, 4), 4),
{
    let mut b = [0u8; 4];
    LittleEndian::write_i32(&mut b, v);
    out.extend_from_slice(&b);
}

/// Relies on byteorder's `LittleEndian::write_i64`: two's complement, least significant byte first.
#[verifier::external_body]
fn push_i64(out: &mut Vec<u8>, v: i64)
    ensures
        final(out)@ == old(out)@ + le_bytes(unsigned_of(v as int, 8), 8),
{
    let mut b = [0u8; 8];
    LittleEndian::write_i64(&mut b, v);
    out.extend_from_slice(&b);
}

proof fn lemma_one_byte(v: u8)
    ensures
        le_bytes(v as nat, 1) == seq![v],
        unsigned_of(v as int, 1) == v,
{
    assert(le_bytes(v as nat / 256, 0) == Seq::<u8>::empty());
    assert(le_bytes(v as nat, 1) =~= seq![v]);
}

/// Appends a scalar's wire bytes.
pub fn push_scalar(out: &mut Vec<u8>, s: Scalar)
    ensures
        final(out)@ == old(out)@ + scalar_bytes(s),
{
    match s {
        Scalar::Int8(v) => {
            let b: u8 = if v < 0 { (v as i16 + 256) as u8 } else { v as u8 };
            proof {
                lemma_one_byte(b);
                vstd::arithmetic::power2::lemma2_to64();
                assert(unsigned_of(v as int, 1) == b);
            }
            out.push(b);
        },
        Scalar::Uint8(v) => {
            proof {
                lemma_one_byte(v);
            }
            out.push(v);
        },
        Scalar::Int16(v) => push_i16(out, v),
        Scalar::Uint16(v) => push_u16(out, v),
        Scalar::Int32(v) => push_i32(out, v),
        Scalar::Uint32(v) => push_u32(out, v),
        Scalar::Int64(v) => push_i64(out, v),
        Scalar::Uint64(v) => push_u64(out, v),
        Scalar::Float32(v) => push_u32(out, v),
        Scalar::Float64(v) => push_u64(out, v),
    }
}

pub proof fn lemma_le_round_trip(v: nat, w: nat)
    requires
        v < pow2(8 * w),
    ensures
        le_nat(le_bytes(v, w)) == v,
        le_bytes(v, w).len() == w,
    decreases w,
{
    if w == 0 {
        assert(pow2(0) == 1) by {
            vstd::arithmetic::power2::lemma2_to64();
        }
    } else {
        let rest = (w - 1) as nat;
        assert(pow2(8 * w) == 256 * pow2(8 * rest)) by {
            vstd::arithmetic::power2::lemma_pow2_adds(8, 8 * rest);
            vstd::arithmetic::power2::lemma2_to64();
        }
        assert(v / 256 < pow2(8 * rest)) by (nonlinear_arith)
            requires
                v < 256 * pow2(8 * rest),
        ;
        lemma_le_round_trip(v / 256, rest);
        let s = le_bytes(v, w);
        assert(s.drop_first() =~= le_bytes(v / 256, rest));
        assert(v == v % 256 + 256 * (v / 256)) by (nonlinear_arith);
    }
}

/// A scalar written little-endian reads back as the same scalar.
pub proof fn lemma_scalar_round_trip(s: Scalar)
    ensures
        scalar_bytes(s).len() == s.data_type().width(),
        wire_value(s.data_type(), scalar_bytes(s)) == s.value(),
{
    let t = s.data_type();
    let w = t.width();
    vstd::arithmetic::power2::lemma2_to64();
    vstd::arithmetic::power2::lemma2_to64_rest();
    let u = unsigned_of(s.value(), w);
    assert(u < pow2(8 * w));
    lemma_le_round_trip(u, w);
}

// ---------------------------------------------------------------------
// The vertex-count field

/// `n` in decimal, left-padded with zeros to `w` digits (the low `w`
/// digits when `n` has more).
pub open spec fn padded_decimal(n: nat, w: nat) -> Seq<u8>
    decreases w,
{
    if w == 0 {
        seq![]
    } else {
        padded_decimal(n / 10, (w - 1) as nat).push((48 + n % 10) as u8)
    }
}

pub open spec fn pow10(w: nat) -> nat
    decreases w,
{
    if w == 0 {
        1
    } else {
        10 * pow10((w - 1) as nat)
    }
}

/// Writes `n` as `w` zero-padded decimal digits.
pub fn padded_digits(n: u64, w: usize) -> (r: Vec<u8>)
    ensures
        r@ == padded_decimal(n as nat, w as nat),
    decreases w,
{
    if w == 0 {
        Vec::new()
    } else {
        let mut r = padded_digits(n / 10, w - 1);
        r.push((48 + n % 10) as u8);
        r
    }
}

pub proof fn lemma_padded_decimal(n: nat, w: nat)
    ensures
        padded_decimal(n, w).len() == w,
        all_digits(padded_decimal(n, w)),
        digits_value(padded_decimal(n, w)) == n % pow10(w),
    decreases w,
{
    if w > 0 {
        let rest = (w - 1) as nat;
        lemma_padded_decimal(n / 10, rest);
        let s = padded_decimal(n, w);
        assert(s.drop_last() =~= padded_decimal(n / 10, rest));
        assert(pow10(rest) > 0) by {
            lemma_pow10_positive(rest);
        }
        vstd::arithmetic::div_mod::lemma_breakdown(n as int, 10, pow10(rest) as int);
    } else {
        assert(n % 1 == 0);
    }
}

pub proof fn lemma_pow10_positive(w: nat)
    ensures
        pow10(w) > 0,
    decreases w,
{
    if w > 0 {
        lemma_pow10_positive((w - 1) as nat);
    }
}

/// The count field's text reads back as the count it was written from,
/// whenever the count has no more digits than the field.
pub proof fn lemma_count_field_round_trip(n: nat, w: nat)
    requires
        w > 0,
        n < pow10(w),
    ensures
        unsigned_named(padded_decimal(n, w)) == Some(n),
{
    lemma_padded_decimal(n, w);
    assert(n % pow10(w) == n) by (nonlinear_arith)
        requires
            n < pow10(w),
    ;
}

} // verus!
