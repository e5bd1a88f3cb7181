//! Wire scalar types of the point format: their names, byte widths and
//! little-endian encodings. Floating-point values are carried as their IEEE
//! 754 bit patterns.
use vstd::arithmetic::power2::{lemma_pow2_unfold, pow2};
use vstd::prelude::*;

use crate::bytes::{spells, token_is};
use byteorder::{ByteOrder, LittleEndian};

verus! {

/// The closed set of scalar types a property may be declared with.
#[derive(Debug, Clone, Copy, PartialEq, Eq, Structural)]
pub enum DataType {
    Int8,
    Uint8,
    Int16,
    Uint16,
    Int32,
    Uint32,
    /// Accepted as an extension of the format.
    Int64,
    /// Accepted as an extension of the format.
    Uint64,
    Float32,
    Float64,
}

/// The type a scalar type name stands for: canonical names and their aliases.
pub open spec fn type_named(t: Seq<u8>) -> Option<DataType> {
    if spells(t, "float"@) || spells(t, "float32"@) {
        Some(DataType::Float32)
    } else if spells(t, "double"@) || spells(t, "float64"@) {
        Some(DataType::Float64)
    } else if spells(t, "char"@) || spells(t, "int8"@) {
        Some(DataType::Int8)
    } else if spells(t, "uchar"@) || spells(t, "uint8"@) {
        Some(DataType::Uint8)
    } else if spells(t, "short"@) || spells(t, "int16"@) {
        Some(DataType::Int16)
    } else if spells(t, "ushort"@) || spells(t, "uint16"@) {
        Some(DataType::Uint16)
    } else if spells(t, "int"@) || spells(t, "int32"@) {
        Some(DataType::Int32)
    } else if spells(t, "uint"@) || spells(t, "uint32"@) {
        Some(DataType::Uint32)
    } else if spells(t, "longlong"@) || spells(t, "int64"@) {
        Some(DataType::Int64)
    } else if spells(t, "ulonglong"@) || spells(t, "uint64"@) {
        Some(DataType::Uint64)
    } else {
        None
    }
}

impl DataType {
    /// Byte width on the wire.
    pub open spec fn width(self) -> nat {
        match self {
            DataType::Int8 | DataType::Uint8 => 1,
            DataType::Int16 | DataType::Uint16 => 2,
            DataType::Int32 | DataType::Uint32 | DataType::Float32 => 4,
            DataType::Int64 | DataType::Uint64 | DataType::Float64 => 8,
        }
    }

    pub open spec fn is_signed(self) -> bool {
        match self {
            DataType::Int8 | DataType::Int16 | DataType::Int32 | DataType::Int64 => true,
            _ => false,
        }
    }

    pub fn byte_width(&self) -> (r: usize)
        ensures
            r == self.width(),
    {
        match self {
            DataType::Int8 | DataType::Uint8 => 1,
            DataType::Int16 | DataType::Uint16 => 2,
            DataType::Int32 | DataType::Uint32 | DataType::Float32 => 4,
            DataType::Int64 | DataType::Uint64 | DataType::Float64 => 8,
        }
    }

    /// Resolves a scalar type name; `None` for a name the format does not know.
    pub fn from_str(input: &[u8]) -> (r: Option<DataType>)
        ensures
            r == type_named(input@),
    {
        if token_is(input, "float") || token_is(input, "float32") {
            Some(DataType::Float32)
        } else if token_is(input, "double") || token_is(input, "float64") {
            Some(DataType::Float64)
        } else if token_is(input, "char") || token_is(input, "int8") {
            Some(DataType::Int8)
        } else if token_is(input, "uchar") || token_is(input, "uint8") {
            Some(DataType::Uint8)
        } else if token_is(input, "short") || token_is(input, "int16") {
            Some(DataType::Int16)
        } else if token_is(input, "ushort") || token_is(input, "uint16") {
            Some(DataType::Uint16)
        } else if token_is(input, "int") || token_is(input, "int32") {
            Some(DataType::Int32)
        } else if token_is(input, "uint") || token_is(input, "uint32") {
            Some(DataType::Uint32)
        } else if token_is(input, "longlong") || token_is(input, "int64") {
            Some(DataType::Int64)
        } else if token_is(input, "ulonglong") || token_is(input, "uint64") {
            Some(DataType::Uint64)
        } else {
            None
        }
    }
}

/// One decoded scalar, tagged with its wire type. `Float32` and `Float64`
/// hold IEEE 754 bit patterns.
#[derive(Debug, Clone, Copy, PartialEq, Eq, Structural)]
pub enum Scalar {
    Int8(i8),
    Uint8(u8),
    Int16(i16),
    Uint16(u16),
    Int32(i32),
    Uint32(u32),
    Int64(i64),
    Uint64(u64),
    Float32(u32),
    Float64(u64),
}

impl Scalar {
    pub open spec fn data_type(self) -> DataType {
        match self {
            Scalar::Int8(_) => DataType::Int8,
            Scalar::Uint8(_) => DataType::Uint8,
            Scalar::Int16(_) => DataType::Int16,
            Scalar::Uint16(_) => DataType::Uint16,
            Scalar::Int32(_) => DataType::Int32,
            Scalar::Uint32(_) => DataType::Uint32,
            Scalar::Int64(_) => DataType::Int64,
            Scalar::Uint64(_) => DataType::Uint64,
            Scalar::Float32(_) => DataType::Float32,
            Scalar::Float64(_) => DataType::Float64,
        }
    }

    /// The integer the scalar holds; for a float, its bit pattern.
    pub open spec fn value(self) -> int {
        match self {
            Scalar::Int8(v) => v as int,
            Scalar::Uint8(v) => v as int,
            Scalar::Int16(v) => v as int,
            Scalar::Uint16(v) => v as int,
            Scalar::Int32(v) => v as int,
            Scalar::Uint32(v) => v as int,
            Scalar::Int64(v) => v as int,
            Scalar::Uint64(v) => v as int,
            Scalar::Float32(v) => v as int,
            Scalar::Float64(v) => v as int,
        }
    }

    pub fn wire_type(&self) -> (r: DataType)
        ensures
            r == self.data_type(),
    {
        match self {
            Scalar::Int8(_) => DataType::Int8,
            Scalar::Uint8(_) => DataType::Uint8,
            Scalar::Int16(_) => DataType::Int16,
            Scalar::Uint16(_) => DataType::Uint16,
            Scalar::Int32(_) => DataType::Int32,
            Scalar::Uint32(_) => DataType::Uint32,
            Scalar::Int64(_) => DataType::Int64,
            Scalar::Uint64(_) => DataType::Uint64,
            Scalar::Float32(_) => DataType::Float32,
            Scalar::Float64(_) => DataType::Float64,
        }
    }
}

/// The unsigned number that bytes encode, least significant byte first.
pub open spec fn le_nat(s: Seq<u8>) -> nat
    decreases s.len(),
{
    if s.len() == 0 {
        0
    } else {
        s[0] as nat + 256 * le_nat(s.drop_first())
    }
}

/// Two's complement reading of an unsigned number of `bits` bits.
pub open spec fn signed_of(v: nat, bits: nat) -> int {
    if v >= pow2((bits - 1) as nat) {
        v - pow2(bits)
    } else {
        v as int
    }
}

/// The number that `t.width()` bytes of type `t` hold on the wire: an
/// integer for integer types, the bit pattern for float types.
pub open spec fn wire_value(t: DataType, b: Seq<u8>) -> int {
    if t.is_signed() {
        signed_of(le_nat(b), 8 * t.width())
    } else {
        le_nat(b) as int
    }
}

/// Relies on byteorder's `LittleEndian::read_u16`: two bytes, least significant first.
#[verifier::external_body]
fn read_u16_at(buf: &[u8], at: usize) -> (r: u16)
    requires
        at + 2 <= buf@.len(),
    ensures
        r as nat == le_nat(buf@.subrange(at as int, at + 2)),
{
    LittleEndian::read_u16(&buf[at..])
}

/// Relies on byteorder's `LittleEndian::read_i16`: two bytes, least significant first, two's complement.
#[verifier::external_body]
fn read_i16_at(buf: &[u8], at: usize) -> (r: i16)
    requires
        at + 2 <= buf@.len(),
    ensures
        r as int == signed_of(le_nat(buf@.subrange(at as int, at + 2)), 16),
{
    LittleEndian::read_i16(&buf[at..])
}

/// Relies on byteorder's `LittleEndian::read_u32`: four bytes, least significant first.
#[verifier::external_body]
fn read_u32_at(buf: &[u8], at: usize) -> (r: u32)
    requires
        at + 4 <= buf@.len(),
    ensures
        r as nat == le_nat(buf@.subrange(at as int, at + 4)),
{
    LittleEndian::read_u32(&buf[at..])
}

/// Relies on byteorder's `LittleEndian::read_i32`: four bytes, least significant first, two's complement.
#[verifier::external_body]
fn read_i32_at(buf: &[u8], at: usize) -> (r: i32)
    requires
        at + 4 <= buf@.len(),
    ensures
        r as int == signed_of(le_nat(buf@.subrange(at as int, at + 4)), 32),
{
    LittleEndian::read_i32(&buf[at..])
}

/// Relies on byteorder's `LittleEndian::read_u64`: eight bytes, least significant first.
#[verifier::external_body]
fn read_u64_at(buf: &[u8], at: usize) -> (r: u64)
    requires
        at + 8 <= buf@.len(),
    ensures
        r as nat == le_nat(buf@.subrange(at as int, at + 8)),
{
    LittleEndian::read_u64(&buf[at..])
}

/// Relies on byteorder's `LittleEndian::read_i64`: eight bytes, least significant first, two's complement.
#[verifier::external_body]
fn read_i64_at(buf: &[u8], at: usize) -> (r: i64)
    requires
        at + 8 <= buf@.len(),
    ensures
        r as int == signed_of(le_nat(buf@.subrange(at as int, at + 8)), 64),
{
    LittleEndian::read_i64(&buf[at..])
}

/// Decodes the scalar of type `t` that starts at `buf[at]`.
pub fn decode_scalar(t: DataType, buf: &[u8], at: usize) -> (r: Scalar)
    requires
        at + t.width() <= buf@.len(),
    ensures
        r.data_type() == t,
        r.value() == wire_value(t, buf@.subrange(at as int, at + t.width())),
{
    proof {
        lemma2_small();
    }
    match t {
        DataType::Int8 => {
            let b = buf[at];
            proof {
                let s = buf@.subrange(at as int, at + 1);
                assert(s.drop_first().len() == 0);
                assert(le_nat(s.drop_first()) == 0);
                assert(s[0] == b);
                assert(le_nat(s) == b as nat);
            }
            if b >= 128 {
                Scalar::Int8((b as i16 - 256) as i8)
            } else {
                Scalar::Int8(b as i8)
            }
        },
        DataType::Uint8 => {
            let b = buf[at];
            proof {
                let s = buf@.subrange(at as int, at + 1);
                assert(s.drop_first().len() == 0);
                assert(le_nat(s.drop_first()) == 0);
                assert(s[0] == b);
                assert(le_nat(s) == b as nat);
            }
            Scalar::Uint8(b)
        },
        DataType::Int16 => Scalar::Int16(read_i16_at(buf, at)),
        DataType::Uint16 => Scalar::Uint16(read_u16_at(buf, at)),
        DataType::Int32 => Scalar::Int32(read_i32_at(buf, at)),
        DataType::Uint32 => Scalar::Uint32(read_u32_at(buf, at)),
        DataType::Int64 => Scalar::Int64(read_i64_at(buf, at)),
        DataType::Uint64 => Scalar::Uint64(read_u64_at(buf, at)),
        DataType::Float32 => Scalar::Float32(read_u32_at(buf, at)),
        DataType::Float64 => Scalar::Float64(read_u64_at(buf, at)),
    }
}

proof fn lemma2_small()
    ensures
        pow2(7) == 128,
        pow2(8) == 256,
        pow2(15) == 32768,
        pow2(16) == 65536,
        pow2(31) == 0x8000_0000,
        pow2(32) == 0x1_0000_0000,
        pow2(63) == 0x8000_0000_0000_0000,
        pow2(64) == 0x1_0000_0000_0000_0000,
{
    vstd::arithmetic::power2::lemma2_to64();
    vstd::arithmetic::power2::lemma2_to64_rest();
}

/// The 8-bit channel a value narrows to, as Rust's `as u8` does: integers
/// wrap modulo 256; floats truncate toward zero and saturate, NaN giving 0.
pub open spec fn channel_value(s: Scalar) -> int {
    match s {
        Scalar::Float32(b) => float_channel(b as int, 23, 8, 127),
        Scalar::Float64(b) => float_channel(b as int, 52, 11, 1023),
        _ => s.value() % 256,
    }
}

/// `as u8` of an IEEE 754 value with `m` fraction bits, `e` exponent bits
/// and exponent bias `bias`, given by its bit pattern `b`.
pub open spec fn float_channel(b: int, m: nat, e: nat, bias: int) -> int {
    let exp = (b / pow2(m) as int) % pow2(e) as int;
    let frac = b % pow2(m) as int;
    let negative = b >= pow2(m + e) as int;
    let top = pow2(e) as int - 1;
    if exp == top && frac != 0 {
        0
    } else if negative {
        0
    } else if exp == top {
        255
    } else if exp < bias {
        0
    } else if exp >= bias + 8 {
        255
    } else {
        (frac + pow2(m) as int) * pow2((exp - bias) as nat) as int / pow2(m) as int
    }
}

proof fn lemma_pow2_values()
    ensures
        pow2(0) == 1,
        pow2(7) == 128,
        pow2(8) == 256,
        pow2(11) == 2048,
        pow2(23) == 0x80_0000,
        pow2(31) == 0x8000_0000,
        pow2(52) == 0x10_0000_0000_0000,
        pow2(63) == 0x8000_0000_0000_0000,
{
    vstd::arithmetic::power2::lemma2_to64();
    vstd::arithmetic::power2::lemma2_to64_rest();
}

/// Truncates a float given by its bit pattern to an 8-bit channel.
fn float_to_channel(b: u64, m: u64, e: u64, bias: u64) -> (r: u8)
    requires
        (m == 23 && e == 8 && bias == 127 && b < 0x1_0000_0000) || (m == 52 && e == 11 && bias
            == 1023),
    ensures
        r as int == float_channel(b as int, m as nat, e as nat, bias as int),
{
    proof {
        lemma_pow2_values();
        vstd::arithmetic::power2::lemma2_to64();
    }
    let one: u64 = if m == 23 { 0x80_0000 } else { 0x10_0000_0000_0000 };
    let span: u64 = if m == 23 { 256 } else { 2048 };
    let sign: u64 = if m == 23 { 0x8000_0000 } else { 0x8000_0000_0000_0000 };
    assert(one == pow2(m as nat) && span == pow2(e as nat) && sign == pow2((m + e) as nat));
    let exp = (b / one) % span;
    let frac = b % one;
    let top = span - 1;
    if exp == top && frac != 0 {
        0
    } else if b >= sign {
        0
    } else if exp == top {
        255
    } else if exp < bias {
        0
    } else if exp >= bias + 8 {
        255
    } else {
        let k = exp - bias;
        let mut p: u64 = 1;
        let mut i: u64 = 0;
        while i < k
            invariant
                0 <= i <= k < 8,
                p == pow2(i as nat),
                pow2(7) == 128,
            decreases k - i,
        {
            proof {
                vstd::arithmetic::power2::lemma_pow2_unfold((i + 1) as nat);
                vstd::arithmetic::power2::lemma_pow2_strictly_increases(i as nat, 7);
            }
            p = p * 2;
            i = i + 1;
        }
        assert(p <= 128) by {
            vstd::arithmetic::power2::lemma_pow2_strictly_increases(k as nat, 8);
        }
        assert((frac + one) * p < 256 * one) by (nonlinear_arith)
            requires
                frac < one,
                p <= 128,
        ;
        assert((frac + one) * p <= 0x8000_0000_0000_0000) by (nonlinear_arith)
            requires
                frac < one,
                one <= 0x10_0000_0000_0000,
                p <= 128,
        ;
        let v = (frac + one) * p / one;
        assert(v < 256) by (nonlinear_arith)
            requires
                v as int == (frac + one) as int * p as int / one as int,
                (frac + one) * p < 256 * one,
                one > 0,
        ;
        v as u8
    }
}

/// `v` modulo 256.
fn wrap_signed(v: i64) -> (r: u8)
    ensures
        r as int == v as int % 256,
{
    let w: i128 = v as i128 + 0x1_0000_0000_0000_0000;
    let m = w % 256;
    proof {
        vstd::arithmetic::div_mod::lemma_mod_multiples_vanish(0x100_0000_0000_0000int, v as int, 256);
        assert(256 * 0x100_0000_0000_0000int + v as int == w as int);
    }
    m as u8
}

/// Narrows a scalar to an 8-bit color channel.
pub fn to_channel(s: Scalar) -> (r: u8)
    ensures
        r as int == channel_value(s),
{
    match s {
        Scalar::Float32(b) => float_to_channel(b as u64, 23, 8, 127),
        Scalar::Float64(b) => float_to_channel(b, 52, 11, 1023),
        Scalar::Int8(v) => wrap_signed(v as i64),
        Scalar::Uint8(v) => v,
        Scalar::Int16(v) => wrap_signed(v as i64),
        Scalar::Uint16(v) => (v % 256) as u8,
        Scalar::Int32(v) => wrap_signed(v as i64),
        Scalar::Uint32(v) => (v % 256) as u8,
        Scalar::Int64(v) => wrap_signed(v as i64),
        Scalar::Uint64(v) => (v % 256) as u8,
    }
}

/// The scalar of type `t` that holds `v` (a bit pattern for float types).
pub open spec fn scalar_of(t: DataType, v: int) -> Scalar {
    match t {
        DataType::Int8 => Scalar::Int8(v as i8),
        DataType::Uint8 => Scalar::Uint8(v as u8),
        DataType::Int16 => Scalar::Int16(v as i16),
        DataType::Uint16 => Scalar::Uint16(v as u16),
        DataType::Int32 => Scalar::Int32(v as i32),
        DataType::Uint32 => Scalar::Uint32(v as u32),
        DataType::Int64 => Scalar::Int64(v as i64),
        DataType::Uint64 => Scalar::Uint64(v as u64),
        DataType::Float32 => Scalar::Float32(v as u32),
        DataType::Float64 => Scalar::Float64(v as u64),
    }
}

/// A scalar is fixed by its type and value.
pub proof fn lemma_scalar_of(s: Scalar)
    ensures
        scalar_of(s.data_type(), s.value()) == s,
{
}

} // verus!
