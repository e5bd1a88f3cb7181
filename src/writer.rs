//! The writer: header text, little-endian point records and the
//! fixed-width vertex-count field that is patched when writing ends.
use vstd::prelude::*;

use crate::batch::{kind_dim, triple, AttributeData, PointsBatch};
use crate::bytes::{spells, token_is};
use crate::encode::{padded_decimal, padded_digits, push_scalar, scalar_bytes};
use crate::layout::ColumnKind;
use crate::number::{parse_unsigned, unsigned_named};
use crate::scalar::{scalar_of, DataType, Scalar};

verus! {

/// Width of the zero-padded decimal vertex-count field.
pub const COUNT_FIELD_WIDTH: usize = 21;

/// Byte offset of the vertex-count field: the length of
/// `ply\nformat binary_little_endian 1.0\nelement vertex `.
pub const COUNT_FIELD_OFFSET: usize = 51;

/// The header text up to the vertex-count field.
pub open spec fn header_start() -> Seq<char> {
    "ply\nformat binary_little_endian 1.0\nelement vertex "@
}

/// The count field of every header the writer emits starts at
/// `COUNT_FIELD_OFFSET` and spans `COUNT_FIELD_WIDTH` bytes.
pub proof fn lemma_count_field_place(e: Encoding, attrs: Seq<HeaderAttributeModel>)
    ensures
        header_text(e, attrs).len() >= COUNT_FIELD_OFFSET + COUNT_FIELD_WIDTH,
        header_text(e, attrs).subrange(
            COUNT_FIELD_OFFSET as int,
            (COUNT_FIELD_OFFSET + COUNT_FIELD_WIDTH) as int,
        ) == padded_decimal(0, COUNT_FIELD_WIDTH as nat),
{
    reveal_strlit("ply\nformat binary_little_endian 1.0\nelement vertex ");
    crate::encode::lemma_padded_decimal(0, COUNT_FIELD_WIDTH as nat);
    let a = ascii(header_start());
    let z = padded_decimal(0, COUNT_FIELD_WIDTH as nat);
    assert(a.len() == COUNT_FIELD_OFFSET);
    let t = header_text(e, attrs);
    assert(t.subrange(COUNT_FIELD_OFFSET as int, (COUNT_FIELD_OFFSET + COUNT_FIELD_WIDTH) as int) =~= z);
}

/// The bytes of ASCII text.
pub open spec fn ascii(w: Seq<char>) -> Seq<u8> {
    w.map_values(|c: char| (c as u32) as u8)
}

/// Appends the bytes of ASCII text.
pub fn push_str(out: &mut Vec<u8>, w: &str)
    ensures
        final(out)@ == old(out)@ + ascii(w@),
{
    let ghost start = out@;
    let n = w.unicode_len();
    let mut i: usize = 0;
    while i < n
        invariant
            n == w@.len(),
            0 <= i <= n,
            out@ == start + ascii(w@.subrange(0, i as int)),
        decreases n - i,
    {
        let c = w.get_char(i);
        #[verifier::truncate]
        let b = (c as u32) as u8;
        out.push(b);
        i = i + 1;
        assert(ascii(w@.subrange(0, i as int)) =~= ascii(w@.subrange(0, i - 1)).push(b));
    }
    assert(w@.subrange(0, n as int) =~= w@);
}

/// How positions are stored: the wire type of `x`, `y` and `z`.
#[derive(Debug, Clone, Copy, PartialEq, Eq, Structural)]
pub enum PositionEncoding {
    Uint8,
    Uint16,
    Float32,
    Float64,
}

/// The writer's position policy: plain doubles, or values quantized into
/// a cube given by its corner and edge length (IEEE 754 double bit
/// patterns). The quantization itself is done before the writer sees the
/// points.
#[derive(Debug, Clone, Copy, PartialEq, Eq, Structural)]
pub enum Encoding {
    Plain,
    ScaledToCube { min_x: u64, min_y: u64, min_z: u64, edge: u64, position: PositionEncoding },
}

#[derive(Debug, Clone, Copy, PartialEq, Eq, Structural)]
pub enum OpenMode {
    Truncate,
    Append,
}

pub open spec fn position_type(e: Encoding) -> DataType {
    match e {
        Encoding::Plain => DataType::Float64,
        Encoding::ScaledToCube { position: p, .. } => match p {
            PositionEncoding::Uint8 => DataType::Uint8,
            PositionEncoding::Uint16 => DataType::Uint16,
            PositionEncoding::Float32 => DataType::Float32,
            PositionEncoding::Float64 => DataType::Float64,
        },
    }
}

pub fn position_data_type(e: &Encoding) -> (r: DataType)
    ensures
        r == position_type(*e),
{
    match e {
        Encoding::Plain => DataType::Float64,
        Encoding::ScaledToCube { position: p, .. } => match p {
            PositionEncoding::Uint8 => DataType::Uint8,
            PositionEncoding::Uint16 => DataType::Uint16,
            PositionEncoding::Float32 => DataType::Float32,
            PositionEncoding::Float64 => DataType::Float64,
        },
    }
}

/// The canonical name the writer emits for a scalar type.
pub open spec fn type_token(t: DataType) -> Seq<char> {
    match t {
        DataType::Int8 => "char"@,
        DataType::Uint8 => "uchar"@,
        DataType::Int16 => "short"@,
        DataType::Uint16 => "ushort"@,
        DataType::Int32 => "int"@,
        DataType::Uint32 => "uint"@,
        DataType::Int64 => "longlong"@,
        DataType::Uint64 => "ulonglong"@,
        DataType::Float32 => "float"@,
        DataType::Float64 => "double"@,
    }
}

fn push_type_token(out: &mut Vec<u8>, t: DataType)
    ensures
        final(out)@ == old(out)@ + ascii(type_token(t)),
{
    match t {
        DataType::Int8 => push_str(out, "char"),
        DataType::Uint8 => push_str(out, "uchar"),
        DataType::Int16 => push_str(out, "short"),
        DataType::Uint16 => push_str(out, "ushort"),
        DataType::Int32 => push_str(out, "int"),
        DataType::Uint32 => push_str(out, "uint"),
        DataType::Int64 => push_str(out, "longlong"),
        DataType::Uint64 => push_str(out, "ulonglong"),
        DataType::Float32 => push_str(out, "float"),
        DataType::Float64 => push_str(out, "double"),
    }
}

/// `n` in decimal.
pub open spec fn decimal(n: nat) -> Seq<u8>
    decreases n,
{
    if n < 10 {
        seq![(48 + n) as u8]
    } else {
        decimal(n / 10).push((48 + n % 10) as u8)
    }
}

fn push_decimal(out: &mut Vec<u8>, n: usize)
    ensures
        final(out)@ == old(out)@ + decimal(n as nat),
    decreases n,
{
    if n >= 10 {
        push_decimal(out, n / 10);
    }
    out.push((48 + n % 10) as u8);
    proof {
        if n >= 10 {
            assert(old(out)@ + decimal(n as nat) =~= old(out)@ + decimal((n / 10) as nat) + seq![(48 + n % 10) as u8]);
        }
    }
}

/// `property <type> <name>\n`
pub open spec fn property_line(t: DataType, name: Seq<u8>) -> Seq<u8> {
    ascii("property"@) + ascii(" "@) + ascii(type_token(t)) + ascii(" "@) + name + ascii("\n"@)
}

fn push_property_line(out: &mut Vec<u8>, t: DataType, name: &[u8], index: Option<usize>)
    ensures
        final(out)@ == old(out)@ + property_line(
            t,
            match index {
                Some(i) => name@ + decimal(i as nat),
                None => name@,
            },
        ),
{
    let ghost start = out@;
    push_str(out, "property");
    push_str(out, " ");
    push_type_token(out, t);
    push_str(out, " ");
    crate::bytes::append_slice(out, name);
    match index {
        Some(i) => push_decimal(out, i),
        None => {},
    }
    push_str(out, "\n");
    assert(out@ =~= start + property_line(
        t,
        match index {
            Some(i) => name@ + decimal(i as nat),
            None => name@,
        },
    ));
}

/// A column as the header declares it: name, scalar type and number of
/// components.
#[derive(Debug)]
pub struct HeaderAttribute {
    pub name: Vec<u8>,
    pub data_type: DataType,
    pub dim: usize,
}

pub struct HeaderAttributeModel {
    pub name: Seq<u8>,
    pub data_type: DataType,
    pub dim: nat,
}

impl View for HeaderAttribute {
    type V = HeaderAttributeModel;

    open spec fn view(&self) -> HeaderAttributeModel {
        HeaderAttributeModel { name: self.name@, data_type: self.data_type, dim: self.dim as nat }
    }
}

pub open spec fn is_color_column(name: Seq<u8>) -> bool {
    spells(name, "color"@) || spells(name, "rgb"@) || spells(name, "rgba"@)
}

pub open spec fn channel_name(i: nat) -> Seq<char> {
    if i == 0 {
        "red"@
    } else if i == 1 {
        "green"@
    } else if i == 2 {
        "blue"@
    } else {
        "alpha"@
    }
}

/// How many property lines a column takes.
pub open spec fn line_count(a: HeaderAttributeModel) -> nat {
    if is_color_column(a.name) {
        if a.dim < 4 { a.dim } else { 4 }
    } else if a.dim > 1 {
        a.dim
    } else {
        1
    }
}

/// The property name of component `i` of a column: channel names for a
/// color column, indexed names for another column of several components.
pub open spec fn component_name(a: HeaderAttributeModel, i: nat) -> Seq<u8> {
    if is_color_column(a.name) {
        ascii(channel_name(i))
    } else if a.dim > 1 {
        a.name + decimal(i)
    } else {
        a.name
    }
}

/// The property line of component `i` of a column.
pub open spec fn component_line(a: HeaderAttributeModel, i: nat) -> Seq<u8> {
    property_line(a.data_type, component_name(a, i))
}

/// The first `k` property lines of a column.
pub open spec fn component_lines(a: HeaderAttributeModel, k: nat) -> Seq<u8>
    decreases k,
{
    if k == 0 {
        seq![]
    } else {
        component_lines(a, (k - 1) as nat) + component_line(a, (k - 1) as nat)
    }
}

/// The property lines of the first `k` columns.
pub open spec fn attribute_lines(attrs: Seq<HeaderAttributeModel>, k: int) -> Seq<u8>
    decreases k,
{
    if k <= 0 {
        seq![]
    } else {
        attribute_lines(attrs, k - 1) + component_lines(attrs[k - 1], line_count(attrs[k - 1]))
    }
}

/// The header the writer emits, with a zero vertex count to be patched.
pub open spec fn header_text(e: Encoding, attrs: Seq<HeaderAttributeModel>) -> Seq<u8> {
    let t = position_type(e);
    ascii(header_start()) + padded_decimal(0, COUNT_FIELD_WIDTH as nat) + ascii("\n"@)
        + property_line(t, ascii("x"@)) + property_line(t, ascii("y"@)) + property_line(
        t,
        ascii("z"@),
    ) + attribute_lines(attrs, attrs.len() as int) + ascii("end_header\n"@)
}

fn push_channel_line(out: &mut Vec<u8>, t: DataType, i: usize)
    ensures
        final(out)@ == old(out)@ + property_line(t, ascii(channel_name(i as nat))),
{
    let mut name: Vec<u8> = Vec::new();
    if i == 0 {
        push_str(&mut name, "red");
    } else if i == 1 {
        push_str(&mut name, "green");
    } else if i == 2 {
        push_str(&mut name, "blue");
    } else {
        push_str(&mut name, "alpha");
    }
    assert(name@ =~= ascii(channel_name(i as nat)));
    push_property_line(out, t, name.as_slice(), None);
}

fn push_attribute_lines(out: &mut Vec<u8>, a: &HeaderAttribute)
    ensures
        final(out)@ == old(out)@ + component_lines(a@, line_count(a@)),
{
    let ghost start = out@;
    let color = token_is(a.name.as_slice(), "color") || token_is(a.name.as_slice(), "rgb")
        || token_is(a.name.as_slice(), "rgba");
    let n: usize = if color {
        if a.dim < 4 { a.dim } else { 4 }
    } else if a.dim > 1 {
        a.dim
    } else {
        1
    };
    let mut i: usize = 0;
    while i < n
        invariant
            0 <= i <= n,
            n == line_count(a@),
            color == is_color_column(a@.name),
            out@ == start + component_lines(a@, i as nat),
        decreases n - i,
    {
        let ghost before = out@;
        if color {
            push_channel_line(out, a.data_type, i);
        } else if a.dim > 1 {
            push_property_line(out, a.data_type, a.name.as_slice(), Some(i));
        } else {
            push_property_line(out, a.data_type, a.name.as_slice(), None);
        }
        i = i + 1;
        assert(out@ =~= start + component_lines(a@, i as nat));
    }
}

pub open spec fn attrs_view(a: Seq<HeaderAttribute>) -> Seq<HeaderAttributeModel> {
    a.map_values(|x: HeaderAttribute| x@)
}

/// Why the writer refused a call.
#[derive(Debug, Clone, Copy, PartialEq, Eq, Structural)]
pub enum WriteError {
    /// The vertex-count field of the file to append to is not decimal digits.
    InvalidCountField,
    /// A coordinate's type is not the one the position encoding stores.
    PositionType,
    /// The point count would not fit in a `usize`.
    TooManyPoints,
}

/// The state of one writer: the points written so far and its encoding.
/// A count of zero means no header has been written yet.
#[derive(Debug)]
pub struct PlyNodeWriter {
    pub point_count: usize,
    pub encoding: Encoding,
}

/// The count a writer starts from: 0 when truncating or when the file is
/// too short to hold a header; otherwise the count field of the file, whose
/// first bytes are `existing`. `None` when that field is not a count.
pub open spec fn resumed_count(mode: OpenMode, existing: Seq<u8>) -> Option<nat> {
    let end = COUNT_FIELD_OFFSET + COUNT_FIELD_WIDTH;
    if mode == OpenMode::Append && existing.len() >= end {
        match unsigned_named(existing.subrange(COUNT_FIELD_OFFSET as int, end as int)) {
            Some(v) => if v <= usize::MAX {
                Some(v)
            } else {
                None
            },
            None => None,
        }
    } else {
        Some(0)
    }
}

impl PlyNodeWriter {
    /// A writer in `mode`; `existing` holds the first bytes of the file to
    /// append to (all of it when shorter), or nothing when there is none.
    /// When the count is not zero, writing goes on one byte before the end of
    /// the file, over its trailing newline.
    pub fn new(encoding: Encoding, mode: OpenMode, existing: &[u8]) -> (r: Result<
        PlyNodeWriter,
        WriteError,
    >)
        ensures
            match resumed_count(mode, existing@) {
                Some(n) => r is Ok && r->Ok_0.point_count == n && r->Ok_0.encoding == encoding,
                None => r == Err::<PlyNodeWriter, WriteError>(WriteError::InvalidCountField),
            },
    {
        let end = COUNT_FIELD_OFFSET + COUNT_FIELD_WIDTH;
        let append = match mode {
            OpenMode::Append => true,
            OpenMode::Truncate => false,
        };
        if append && existing.len() >= end {
            let field = crate::bytes::to_vec(existing);
            let mut digits: Vec<u8> = Vec::new();
            let mut i: usize = COUNT_FIELD_OFFSET;
            while i < end
                invariant
                    COUNT_FIELD_OFFSET <= i <= end <= field@.len(),
                    end == COUNT_FIELD_OFFSET + COUNT_FIELD_WIDTH,
                    digits@ == field@.subrange(COUNT_FIELD_OFFSET as int, i as int),
                decreases end - i,
            {
                digits.push(field[i]);
                i = i + 1;
                assert(digits@ =~= field@.subrange(COUNT_FIELD_OFFSET as int, i as int));
            }
            assert(digits@.subrange(0, digits@.len() as int) =~= digits@);
            match parse_unsigned(digits.as_slice(), 0, usize::MAX as u64) {
                Some(v) => Ok(PlyNodeWriter { point_count: v as usize, encoding }),
                None => Err(WriteError::InvalidCountField),
            }
        } else {
            Ok(PlyNodeWriter { point_count: 0, encoding })
        }
    }

    /// Whether writing resumes a file that already holds points.
    pub fn resumes(&self) -> (r: bool)
        ensures
            r == (self.point_count > 0),
    {
        self.point_count > 0
    }

    /// The header text for the given columns, with a zero vertex count.
    pub fn create_header(&self, elements: &Vec<HeaderAttribute>) -> (r: Vec<u8>)
        ensures
            r@ == header_text(self.encoding, attrs_view(elements@)),
    {
        let mut out: Vec<u8> = Vec::new();
        push_str(&mut out, "ply\nformat binary_little_endian 1.0\nelement vertex ");
        let zeros = padded_digits(0, COUNT_FIELD_WIDTH);
        crate::bytes::append_slice(&mut out, zeros.as_slice());
        push_str(&mut out, "\n");
        let t = position_data_type(&self.encoding);
        let ghost xn: Seq<u8> = ascii("x"@);
        let mut name: Vec<u8> = Vec::new();
        push_str(&mut name, "x");
        push_property_line(&mut out, t, name.as_slice(), None);
        let mut name: Vec<u8> = Vec::new();
        push_str(&mut name, "y");
        push_property_line(&mut out, t, name.as_slice(), None);
        let mut name: Vec<u8> = Vec::new();
        push_str(&mut name, "z");
        push_property_line(&mut out, t, name.as_slice(), None);
        let ghost head = out@;
        let ghost av = attrs_view(elements@);
        let mut k: usize = 0;
        while k < elements.len()
            invariant
                0 <= k <= elements@.len(),
                av == attrs_view(elements@),
                out@ == head + attribute_lines(av, k as int),
            decreases elements@.len() - k,
        {
            assert(av[k as int] == elements@[k as int]@);
            push_attribute_lines(&mut out, &elements[k]);
            k = k + 1;
            assert(out@ =~= head + attribute_lines(av, k as int));
        }
        push_str(&mut out, "end_header\n");
        assert(out@ =~= header_text(self.encoding, av));
        out
    }
}

// ---------------------------------------------------------------------
// Records

pub open spec fn kind_type(k: ColumnKind) -> DataType {
    match k {
        ColumnKind::U8 | ColumnKind::U8Vec3 => DataType::Uint8,
        ColumnKind::U64 => DataType::Uint64,
        ColumnKind::I64 => DataType::Int64,
        ColumnKind::F32 => DataType::Float32,
        ColumnKind::F64 | ColumnKind::F64Vec3 => DataType::Float64,
    }
}

/// The header columns of a batch: one per attribute column, in order.
pub open spec fn batch_attrs(b: PointsBatch) -> Seq<HeaderAttributeModel> {
    Seq::new(
        b.attributes@.len(),
        |k: int|
            {
                let kind = b.attributes@[k].data.kind();
                HeaderAttributeModel {
                    name: b.attributes@[k].name@,
                    data_type: kind_type(kind),
                    dim: kind_dim(kind),
                }
            },
    )
}

/// One component of a column entry on the wire.
pub open spec fn component_bytes(k: ColumnKind, v: int) -> Seq<u8> {
    scalar_bytes(scalar_of(kind_type(k), v))
}

/// A column entry on the wire: its components in order.
pub open spec fn entry_bytes(k: ColumnKind, e: Seq<int>) -> Seq<u8> {
    if kind_dim(k) == 1 {
        component_bytes(k, e[0])
    } else {
        component_bytes(k, e[0]) + component_bytes(k, e[1]) + component_bytes(k, e[2])
    }
}

/// Point `i`'s entries in the first `k` columns.
pub open spec fn columns_bytes(b: PointsBatch, i: int, k: int) -> Seq<u8>
    decreases k,
{
    if k <= 0 {
        seq![]
    } else {
        let a = b.attributes@[k - 1].data;
        columns_bytes(b, i, k - 1) + entry_bytes(a.kind(), a.entries()[i])
    }
}

pub open spec fn position_bytes(p: Seq<Scalar>) -> Seq<u8> {
    scalar_bytes(p[0]) + scalar_bytes(p[1]) + scalar_bytes(p[2])
}

/// Point `i` on the wire: its position, then its entry in each column.
pub open spec fn record_bytes(b: PointsBatch, i: int) -> Seq<u8> {
    position_bytes(b.positions()[i]) + columns_bytes(b, i, b.attributes@.len() as int)
}

/// The first `n` points of a batch on the wire.
pub open spec fn records_bytes(b: PointsBatch, n: int) -> Seq<u8>
    decreases n,
{
    if n <= 0 {
        seq![]
    } else {
        records_bytes(b, n - 1) + record_bytes(b, n - 1)
    }
}

/// Every coordinate of the batch has type `t`.
pub open spec fn positions_typed(b: PointsBatch, t: DataType) -> bool {
    forall|i: int, c: int|
        0 <= i < b.position@.len() && 0 <= c < 3 ==> (#[trigger] b.positions()[i][c]).data_type()
            == t
}

fn column_kind_type(k: ColumnKind) -> (r: DataType)
    ensures
        r == kind_type(k),
{
    match k {
        ColumnKind::U8 | ColumnKind::U8Vec3 => DataType::Uint8,
        ColumnKind::U64 => DataType::Uint64,
        ColumnKind::I64 => DataType::Int64,
        ColumnKind::F32 => DataType::Float32,
        ColumnKind::F64 | ColumnKind::F64Vec3 => DataType::Float64,
    }
}

fn column_kind(d: &AttributeData) -> (r: ColumnKind)
    ensures
        r == d.kind(),
{
    match d {
        AttributeData::U8(_) => ColumnKind::U8,
        AttributeData::U64(_) => ColumnKind::U64,
        AttributeData::I64(_) => ColumnKind::I64,
        AttributeData::F32(_) => ColumnKind::F32,
        AttributeData::F64(_) => ColumnKind::F64,
        AttributeData::U8Vec3(_) => ColumnKind::U8Vec3,
        AttributeData::F64Vec3(_) => ColumnKind::F64Vec3,
    }
}

/// Appends entry `i` of a column.
fn push_entry(out: &mut Vec<u8>, d: &AttributeData, i: usize)
    requires
        i < d.entries().len(),
    ensures
        final(out)@ == old(out)@ + entry_bytes(d.kind(), d.entries()[i as int]),
{
    let ghost start = out@;
    match d {
        AttributeData::U8(v) => push_scalar(out, Scalar::Uint8(v[i])),
        AttributeData::U64(v) => push_scalar(out, Scalar::Uint64(v[i])),
        AttributeData::I64(v) => push_scalar(out, Scalar::Int64(v[i])),
        AttributeData::F32(v) => push_scalar(out, Scalar::Float32(v[i])),
        AttributeData::F64(v) => push_scalar(out, Scalar::Float64(v[i])),
        AttributeData::U8Vec3(v) => {
            let a = v[i];
            push_scalar(out, Scalar::Uint8(a[0]));
            push_scalar(out, Scalar::Uint8(a[1]));
            push_scalar(out, Scalar::Uint8(a[2]));
            assert(out@ =~= start + entry_bytes(d.kind(), d.entries()[i as int]));
        },
        AttributeData::F64Vec3(v) => {
            let a = v[i];
            push_scalar(out, Scalar::Float64(a[0]));
            push_scalar(out, Scalar::Float64(a[1]));
            push_scalar(out, Scalar::Float64(a[2]));
            assert(out@ =~= start + entry_bytes(d.kind(), d.entries()[i as int]));
        },
    }
}

fn push_position(out: &mut Vec<u8>, p: [Scalar; 3])
    ensures
        final(out)@ == old(out)@ + position_bytes(triple(p)),
{
    let ghost start = out@;
    push_scalar(out, p[0]);
    push_scalar(out, p[1]);
    push_scalar(out, p[2]);
    assert(out@ =~= start + position_bytes(triple(p)));
}

/// A single point: position, color and an optional intensity (an IEEE 754
/// single-precision bit pattern).
#[derive(Debug, Clone, Copy, PartialEq, Eq)]
pub struct Point {
    pub position: [Scalar; 3],
    pub color: [u8; 3],
    pub intensity: Option<u32>,
}

/// The header columns of a single point: a three-channel color, and an
/// intensity when the point has one.
pub open spec fn point_attrs(p: Point) -> Seq<HeaderAttributeModel> {
    let color = HeaderAttributeModel { name: ascii("color"@), data_type: DataType::Uint8, dim: 3 };
    match p.intensity {
        Some(_) => seq![
            color,
            HeaderAttributeModel { name: ascii("intensity"@), data_type: DataType::Float32, dim: 1 },
        ],
        None => seq![color],
    }
}

/// A single point on the wire: position, color, then intensity if present.
pub open spec fn point_bytes(p: Point) -> Seq<u8> {
    let base = position_bytes(triple(p.position)) + scalar_bytes(Scalar::Uint8(p.color@[0]))
        + scalar_bytes(Scalar::Uint8(p.color@[1])) + scalar_bytes(Scalar::Uint8(p.color@[2]));
    match p.intensity {
        Some(v) => base + scalar_bytes(Scalar::Float32(v)),
        None => base,
    }
}

/// What closing a writer changes in its file: append `trailer`, then
/// overwrite the bytes at `offset` with `field`.
#[derive(Debug)]
pub struct CountPatch {
    pub trailer: Vec<u8>,
    pub offset: usize,
    pub field: Vec<u8>,
}

impl PlyNodeWriter {
    /// The bytes that writing a batch appends: the header first when nothing
    /// has been written yet, then each point's record.
    pub fn write(&mut self, p: &PointsBatch) -> (r: Result<Vec<u8>, WriteError>)
        requires
            p.wf(),
        ensures
            p.position@.len() == 0 ==> r is Ok && r->Ok_0@.len() == 0,
            p.position@.len() == 0 ==> *final(self) == *old(self),
            p.position@.len() > 0 && !positions_typed(*p, position_type(old(self).encoding)) ==> r
                == Err::<Vec<u8>, WriteError>(WriteError::PositionType) && *final(self) == *old(self),
            p.position@.len() > 0 && positions_typed(*p, position_type(old(self).encoding))
                && old(self).point_count + p.position@.len() > usize::MAX ==> r == Err::<
                Vec<u8>,
                WriteError,
            >(WriteError::TooManyPoints) && *final(self) == *old(self),
            p.position@.len() > 0 && positions_typed(*p, position_type(old(self).encoding))
                && old(self).point_count + p.position@.len() <= usize::MAX ==> {
                &&& r is Ok
                &&& r->Ok_0@ == (if old(self).point_count == 0 {
                    header_text(old(self).encoding, batch_attrs(*p))
                } else {
                    Seq::<u8>::empty()
                }) + records_bytes(*p, p.position@.len() as int)
                &&& final(self).point_count == old(self).point_count + p.position@.len()
                &&& final(self).encoding == old(self).encoding
            },
    {
        let n = p.position.len();
        if n == 0 {
            return Ok(Vec::new());
        }
        let t = position_data_type(&self.encoding);
        let mut i: usize = 0;
        while i < n
            invariant
                n == p.position@.len(),
                0 <= i <= n,
                t == position_type(self.encoding),
                forall|j: int, c: int| 0 <= j < i && 0 <= c < 3 ==> (#[trigger] p.positions()[j][c]).data_type() == t,
            decreases n - i,
        {
            let q = p.position[i];
            let t0 = q[0].wire_type();
            let t1 = q[1].wire_type();
            let t2 = q[2].wire_type();
            if t0 != t || t1 != t || t2 != t {
                proof {
                    let c: int = if t0 != t { 0 } else if t1 != t { 1 } else { 2 };
                    assert(p.positions()[i as int][c].data_type() != t);
                }
                return Err(WriteError::PositionType);
            }
            proof {
                assert forall|j: int, c: int| 0 <= j < i + 1 && 0 <= c < 3 implies (#[trigger] p.positions()[j][c]).data_type() == t by {
                    if j == i {
                        assert(p.positions()[j] == triple(q));
                    }
                }
            }
            i = i + 1;
        }
        if self.point_count > usize::MAX - n {
            return Err(WriteError::TooManyPoints);
        }
        let mut out: Vec<u8> = Vec::new();
        if self.point_count == 0 {
            let mut elements: Vec<HeaderAttribute> = Vec::new();
            let mut k: usize = 0;
            while k < p.attributes.len()
                invariant
                    0 <= k <= p.attributes@.len(),
                    attrs_view(elements@) == batch_attrs(*p).subrange(0, k as int),
                decreases p.attributes@.len() - k,
            {
                let a = &p.attributes[k];
                let kind = column_kind(&a.data);
                let h = HeaderAttribute {
                    name: crate::bytes::to_vec(a.name.as_slice()),
                    data_type: column_kind_type(kind),
                    dim: a.data.dim(),
                };
                let ghost hv = h@;
                assert(hv == batch_attrs(*p)[k as int]);
                let ghost before = elements@;
                elements.push(h);
                assert(attrs_view(elements@) =~= attrs_view(before).push(hv));
                k = k + 1;
                assert(attrs_view(elements@) =~= batch_attrs(*p).subrange(0, k as int));
            }
            assert(batch_attrs(*p).subrange(0, k as int) =~= batch_attrs(*p));
            out = self.create_header(&elements);
        }
        let ghost head = out@;
        let mut i: usize = 0;
        while i < n
            invariant
                n == p.position@.len(),
                p.wf(),
                0 <= i <= n,
                out@ == head + records_bytes(*p, i as int),
            decreases n - i,
        {
            let ghost before = out@;
            push_position(&mut out, p.position[i]);
            let ghost mid = out@;
            let mut k: usize = 0;
            while k < p.attributes.len()
                invariant
                    n == p.position@.len(),
                    p.wf(),
                    0 <= i < n,
                    0 <= k <= p.attributes@.len(),
                    out@ == mid + columns_bytes(*p, i as int, k as int),
                decreases p.attributes@.len() - k,
            {
                assert(p.attributes@[k as int].data.entries().len() == n);
                push_entry(&mut out, &p.attributes[k].data, i);
                k = k + 1;
                assert(out@ =~= mid + columns_bytes(*p, i as int, k as int));
            }
            i = i + 1;
            assert(out@ =~= head + records_bytes(*p, i as int));
        }
        self.point_count = self.point_count + n;
        Ok(out)
    }

    /// The bytes that writing one point appends: the header first when
    /// nothing has been written yet, then the point's record.
    pub fn write_point(&mut self, p: &Point) -> (r: Result<Vec<u8>, WriteError>)
        ensures
            !(forall|c: int| 0 <= c < 3 ==> (#[trigger] p.position@[c]).data_type() == position_type(
                old(self).encoding,
            )) ==> r == Err::<Vec<u8>, WriteError>(WriteError::PositionType) && *final(self)
                == *old(self),
            (forall|c: int| 0 <= c < 3 ==> (#[trigger] p.position@[c]).data_type() == position_type(
                old(self).encoding,
            )) && old(self).point_count == usize::MAX ==> r == Err::<Vec<u8>, WriteError>(
                WriteError::TooManyPoints,
            ) && *final(self) == *old(self),
            (forall|c: int| 0 <= c < 3 ==> (#[trigger] p.position@[c]).data_type() == position_type(
                old(self).encoding,
            )) && old(self).point_count < usize::MAX ==> {
                &&& r is Ok
                &&& r->Ok_0@ == (if old(self).point_count == 0 {
                    header_text(old(self).encoding, point_attrs(*p))
                } else {
                    Seq::<u8>::empty()
                }) + point_bytes(*p)
                &&& final(self).point_count == old(self).point_count + 1
                &&& final(self).encoding == old(self).encoding
            },
    {
        let t = position_data_type(&self.encoding);
        if p.position[0].wire_type() != t || p.position[1].wire_type() != t
            || p.position[2].wire_type() != t {
            return Err(WriteError::PositionType);
        }
        if self.point_count == usize::MAX {
            return Err(WriteError::TooManyPoints);
        }
        let mut out: Vec<u8> = Vec::new();
        if self.point_count == 0 {
            let mut color: Vec<u8> = Vec::new();
            push_str(&mut color, "color");
            let mut elements: Vec<HeaderAttribute> = Vec::new();
            elements.push(HeaderAttribute { name: color, data_type: DataType::Uint8, dim: 3 });
            if p.intensity.is_some() {
                let mut name: Vec<u8> = Vec::new();
                push_str(&mut name, "intensity");
                elements.push(HeaderAttribute { name, data_type: DataType::Float32, dim: 1 });
            }
            assert(attrs_view(elements@) =~= point_attrs(*p));
            out = self.create_header(&elements);
        }
        let ghost head = out@;
        push_position(&mut out, p.position);
        push_scalar(&mut out, Scalar::Uint8(p.color[0]));
        push_scalar(&mut out, Scalar::Uint8(p.color[1]));
        push_scalar(&mut out, Scalar::Uint8(p.color[2]));
        match p.intensity {
            Some(v) => push_scalar(&mut out, Scalar::Float32(v)),
            None => {},
        }
        assert(out@ =~= head + point_bytes(*p));
        self.point_count = self.point_count + 1;
        Ok(out)
    }

    /// What closing the writer does to its file: nothing when no point was
    /// written; otherwise append the trailing newline and overwrite the count
    /// field with the zero-padded point count.
    pub fn finish(&self) -> (r: Option<CountPatch>)
        ensures
            r is None <==> self.point_count == 0,
            r is Some ==> {
                let c = r->Some_0;
                &&& c.trailer@ == ascii("\n"@)
                &&& c.offset == COUNT_FIELD_OFFSET
                &&& c.field@ == padded_decimal(self.point_count as nat, COUNT_FIELD_WIDTH as nat)
            },
    {
        if self.point_count == 0 {
            return None;
        }
        let mut trailer: Vec<u8> = Vec::new();
        push_str(&mut trailer, "\n");
        let field = padded_digits(self.point_count as u64, COUNT_FIELD_WIDTH);
        Some(CountPatch { trailer, offset: COUNT_FIELD_OFFSET, field })
    }
}

/// The file a writer leaves: its header with the count field patched to
/// `n`.
pub open spec fn patched_header(e: Encoding, attrs: Seq<HeaderAttributeModel>, n: nat) -> Seq<u8> {
    let t = header_text(e, attrs);
    let at = COUNT_FIELD_OFFSET as int;
    let end = (COUNT_FIELD_OFFSET + COUNT_FIELD_WIDTH) as int;
    t.subrange(0, at) + padded_decimal(n, COUNT_FIELD_WIDTH as nat) + t.subrange(end, t.len() as int)
}

proof fn lemma_count_fits(n: nat)
    requires
        n <= usize::MAX,
    ensures
        n < crate::encode::pow10(COUNT_FIELD_WIDTH as nat),
{
    reveal_with_fuel(crate::encode::pow10, 22);
    assert(crate::encode::pow10(21) == 1_000_000_000_000_000_000_000);
}

/// A writer opened to append to a file that an earlier writer finished with
/// `n` points resumes from `n`: the count field reads back as written.
pub proof fn lemma_append_resumes(e: Encoding, attrs: Seq<HeaderAttributeModel>, n: nat)
    requires
        n <= usize::MAX,
    ensures
        resumed_count(OpenMode::Append, patched_header(e, attrs, n)) == Some(n),
{
    let t = header_text(e, attrs);
    let at = COUNT_FIELD_OFFSET as int;
    let end = (COUNT_FIELD_OFFSET + COUNT_FIELD_WIDTH) as int;
    lemma_count_field_place(e, attrs);
    crate::encode::lemma_padded_decimal(n, COUNT_FIELD_WIDTH as nat);
    crate::encode::lemma_padded_decimal(0, COUNT_FIELD_WIDTH as nat);
    lemma_count_fits(n);
    crate::encode::lemma_count_field_round_trip(n, COUNT_FIELD_WIDTH as nat);
    let f = patched_header(e, attrs, n);
    assert(t.subrange(at, end).len() == COUNT_FIELD_WIDTH);
    assert(f.subrange(at, end) =~= padded_decimal(n, COUNT_FIELD_WIDTH as nat));
}

} // verus!
