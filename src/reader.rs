//! Decoding records into batches, and the reader's state over a file.
use vstd::prelude::*;

use crate::batch::{Attribute, AttributeData, PointsBatch};
use crate::bytes::{spells, token_is};
use crate::header::{
    elements_view, offset_view, parse_header, parsed, ElementModel, Format, Header, HeaderError,
    HeaderModel, OffsetText, PropertyModel,
};
use crate::layout::{
    columns_upto, columns_view, compile, compile_outcome, storage_for, Column, ColumnKind,
    RecordLayout, Role, SchemaError,
};
use crate::scalar::{channel_value, decode_scalar, scalar_of, to_channel, wire_value, Scalar};

verus! {

/// The scalars of the record that starts at `d[start]`, one per property.
pub open spec fn record_scalars(l: RecordLayout, d: Seq<u8>, start: int) -> Seq<Scalar> {
    Seq::new(
        l.readers@.len(),
        |i: int|
            {
                let r = l.readers@[i];
                scalar_of(
                    r.data_type,
                    wire_value(
                        r.data_type,
                        d.subrange(start + r.at, start + r.at + r.data_type.width()),
                    ),
                )
            },
    )
}

pub open spec fn position_of(l: RecordLayout, sc: Seq<Scalar>) -> Seq<Scalar> {
    seq![sc[l.x as int], sc[l.y as int], sc[l.z as int]]
}

/// A color channel: the narrowed value of its property, or 0 when the
/// channel is not declared.
pub open spec fn channel_from(o: Option<usize>, sc: Seq<Scalar>) -> int {
    match o {
        Some(i) => channel_value(sc[i as int]),
        None => 0,
    }
}

pub open spec fn color_of(l: RecordLayout, sc: Seq<Scalar>) -> Seq<int> {
    seq![channel_from(l.red, sc), channel_from(l.green, sc), channel_from(l.blue, sc)]
}

pub open spec fn column_entry(c: Column, sc: Seq<Scalar>) -> Seq<int> {
    seq![sc[c.source as int].value()]
}

/// Number of color columns: one when any channel is declared.
pub open spec fn color_columns(l: RecordLayout) -> int {
    if l.has_color() {
        1
    } else {
        0
    }
}

/// `b` holds the points whose property scalars are `rows`, laid out as `l`
/// says: positions from `x`, `y`, `z`; a `color` column first when any
/// channel is declared; then one column per generic attribute.
pub open spec fn holds_rows(b: PointsBatch, l: RecordLayout, rows: Seq<Seq<Scalar>>) -> bool {
    let n = rows.len();
    let c = color_columns(l);
    &&& b.positions() == Seq::new(n, |j: int| position_of(l, rows[j]))
    &&& b.attributes@.len() == c + l.columns@.len()
    &&& l.has_color() ==> {
        let a = b.attributes@[0];
        &&& spells(a.name@, "color"@)
        &&& a.data.kind() == ColumnKind::U8Vec3
        &&& a.data.entries() == Seq::new(n, |j: int| color_of(l, rows[j]))
    }
    &&& forall|k: int|
        0 <= k < l.columns@.len() ==> {
            let a = #[trigger] b.attributes@[c + k];
            let col = l.columns@[k];
            &&& a.name@ == col.name@
            &&& a.data.kind() == col.kind
            &&& a.data.entries() == Seq::new(n, |j: int| column_entry(col, rows[j]))
        }
}

/// The rows of the first `n` records of `d`.
pub open spec fn records(l: RecordLayout, d: Seq<u8>, n: int) -> Seq<Seq<Scalar>> {
    Seq::new(n as nat, |j: int| record_scalars(l, d, j * l.record_size))
}

proof fn lemma_columns_upto(props: Seq<PropertyModel>, n: int, k: int)
    requires
        0 <= n <= props.len(),
        0 <= k < columns_upto(props, n).len(),
    ensures
        ({
            let c = columns_upto(props, n)[k];
            &&& 0 <= c.source < n
            &&& c.name == props[c.source].name
            &&& storage_for(props[c.source].data_type) == Some(c.kind)
        }),
    decreases n,
{
    if n > 0 {
        let before = columns_upto(props, n - 1);
        if k < before.len() {
            lemma_columns_upto(props, n - 1, k);
        }
    }
}

/// The layout's columns read their sources with the matching storage type.
proof fn lemma_column_sources(l: RecordLayout, k: int)
    requires
        l.wf(),
        0 <= k < l.columns@.len(),
    ensures
        ({
            let c = l.columns@[k];
            &&& 0 <= c.source < l.readers@.len()
            &&& storage_for(l.readers@[c.source as int].data_type) == Some(c.kind)
        }),
{
    let props = l.properties();
    assert(columns_view(l.columns@)[k] == l.columns@[k]@);
    lemma_columns_upto(props, props.len() as int, k);
}

/// An empty batch with the columns that the layout fills.
pub fn batch_from_readers(l: &RecordLayout) -> (r: PointsBatch)
    requires
        l.wf(),
    ensures
        holds_rows(r, *l, seq![]),
        r.wf(),
{
    let mut attributes: Vec<Attribute> = Vec::new();
    if l.red.is_some() || l.green.is_some() || l.blue.is_some() {
        let name: Vec<u8> = vec![99u8, 111, 108, 111, 114];
        proof {
            reveal_strlit("color");
        }
        attributes.push(Attribute { name, data: AttributeData::U8Vec3(Vec::new()) });
        assert(spells(attributes@[0].name@, "color"@));
    }
    let ghost c = color_columns(*l);
    let mut k: usize = 0;
    while k < l.columns.len()
        invariant
            0 <= k <= l.columns@.len(),
            l.wf(),
            c == color_columns(*l),
            attributes@.len() == c + k,
            l.has_color() ==> {
                let a = attributes@[0];
                &&& spells(a.name@, "color"@)
                &&& a.data.kind() == ColumnKind::U8Vec3
            },
            forall|i: int|
                0 <= i < k ==> {
                    let a = #[trigger] attributes@[c + i];
                    let col = l.columns@[i];
                    &&& a.name@ == col.name@
                    &&& a.data.kind() == col.kind
                },
            forall|i: int| 0 <= i < attributes@.len() ==> (#[trigger] attributes@[i]).data.entries().len() == 0,
        decreases l.columns@.len() - k,
    {
        let col = &l.columns[k];
        let data = match col.kind {
            ColumnKind::U8 => AttributeData::U8(Vec::new()),
            ColumnKind::U64 => AttributeData::U64(Vec::new()),
            ColumnKind::I64 => AttributeData::I64(Vec::new()),
            ColumnKind::F32 => AttributeData::F32(Vec::new()),
            ColumnKind::F64 => AttributeData::F64(Vec::new()),
            ColumnKind::U8Vec3 => AttributeData::U8Vec3(Vec::new()),
            ColumnKind::F64Vec3 => AttributeData::F64Vec3(Vec::new()),
        };
        attributes.push(Attribute { name: crate::bytes::to_vec(col.name.as_slice()), data });
        k = k + 1;
    }
    let r = PointsBatch { position: Vec::new(), attributes };
    let ghost rows: Seq<Seq<Scalar>> = seq![];
    assert(r.positions() =~= Seq::new(0, |j: int| position_of(*l, rows[j])));
    proof {
        if l.has_color() {
            assert(r.attributes@[0].data.entries() =~= Seq::new(0, |j: int| color_of(*l, rows[j])));
        }
    }
    assert forall|k: int| 0 <= k < l.columns@.len() implies (#[trigger] r.attributes@[c + k]).data.entries()
        =~= Seq::new(0, |j: int| column_entry(l.columns@[k], rows[j])) by {
        assert(r.attributes@[c + k].data.entries().len() == 0);
    }
    r
}


fn column_u8(rows: &Vec<Vec<Scalar>>, src: usize) -> (r: Vec<u8>)
    requires
        forall|j: int| 0 <= j < rows@.len() ==> src < (#[trigger] rows@[j])@.len() && rows@[j]@[src as int] is Uint8,
    ensures
        r@.map_values(|x: u8| seq![x as int]) == Seq::new(rows@.len(), |j: int| seq![rows@[j]@[src as int].value()]),
{
    let mut r: Vec<u8> = Vec::new();
    let mut j: usize = 0;
    while j < rows.len()
        invariant
            0 <= j <= rows@.len(),
            r@.len() == j,
            forall|i: int| 0 <= i < rows@.len() ==> src < (#[trigger] rows@[i])@.len() && rows@[i]@[src as int] is Uint8,
            forall|i: int| 0 <= i < j ==> r@[i] as int == (#[trigger] rows@[i])@[src as int].value(),
        decreases rows@.len() - j,
    {
        assert(src < rows@[j as int]@.len());
        match rows[j][src] {
            Scalar::Uint8(x) => r.push(x),
            _ => {},
        }
        j = j + 1;
    }
    assert(r@.map_values(|x: u8| seq![x as int]) =~= Seq::new(rows@.len(), |j: int| seq![rows@[j]@[src as int].value()]));
    r
}

fn column_u64(rows: &Vec<Vec<Scalar>>, src: usize) -> (r: Vec<u64>)
    requires
        forall|j: int| 0 <= j < rows@.len() ==> src < (#[trigger] rows@[j])@.len() && rows@[j]@[src as int] is Uint64,
    ensures
        r@.map_values(|x: u64| seq![x as int]) == Seq::new(rows@.len(), |j: int| seq![rows@[j]@[src as int].value()]),
{
    let mut r: Vec<u64> = Vec::new();
    let mut j: usize = 0;
    while j < rows.len()
        invariant
            0 <= j <= rows@.len(),
            r@.len() == j,
            forall|i: int| 0 <= i < rows@.len() ==> src < (#[trigger] rows@[i])@.len() && rows@[i]@[src as int] is Uint64,
            forall|i: int| 0 <= i < j ==> r@[i] as int == (#[trigger] rows@[i])@[src as int].value(),
        decreases rows@.len() - j,
    {
        assert(src < rows@[j as int]@.len());
        match rows[j][src] {
            Scalar::Uint64(x) => r.push(x),
            _ => {},
        }
        j = j + 1;
    }
    assert(r@.map_values(|x: u64| seq![x as int]) =~= Seq::new(rows@.len(), |j: int| seq![rows@[j]@[src as int].value()]));
    r
}

fn column_i64(rows: &Vec<Vec<Scalar>>, src: usize) -> (r: Vec<i64>)
    requires
        forall|j: int| 0 <= j < rows@.len() ==> src < (#[trigger] rows@[j])@.len() && rows@[j]@[src as int] is Int64,
    ensures
        r@.map_values(|x: i64| seq![x as int]) == Seq::new(rows@.len(), |j: int| seq![rows@[j]@[src as int].value()]),
{
    let mut r: Vec<i64> = Vec::new();
    let mut j: usize = 0;
    while j < rows.len()
        invariant
            0 <= j <= rows@.len(),
            r@.len() == j,
            forall|i: int| 0 <= i < rows@.len() ==> src < (#[trigger] rows@[i])@.len() && rows@[i]@[src as int] is Int64,
            forall|i: int| 0 <= i < j ==> r@[i] as int == (#[trigger] rows@[i])@[src as int].value(),
        decreases rows@.len() - j,
    {
        assert(src < rows@[j as int]@.len());
        match rows[j][src] {
            Scalar::Int64(x) => r.push(x),
            _ => {},
        }
        j = j + 1;
    }
    assert(r@.map_values(|x: i64| seq![x as int]) =~= Seq::new(rows@.len(), |j: int| seq![rows@[j]@[src as int].value()]));
    r
}

fn column_f32(rows: &Vec<Vec<Scalar>>, src: usize) -> (r: Vec<u32>)
    requires
        forall|j: int| 0 <= j < rows@.len() ==> src < (#[trigger] rows@[j])@.len() && rows@[j]@[src as int] is Float32,
    ensures
        r@.map_values(|x: u32| seq![x as int]) == Seq::new(rows@.len(), |j: int| seq![rows@[j]@[src as int].value()]),
{
    let mut r: Vec<u32> = Vec::new();
    let mut j: usize = 0;
    while j < rows.len()
        invariant
            0 <= j <= rows@.len(),
            r@.len() == j,
            forall|i: int| 0 <= i < rows@.len() ==> src < (#[trigger] rows@[i])@.len() && rows@[i]@[src as int] is Float32,
            forall|i: int| 0 <= i < j ==> r@[i] as int == (#[trigger] rows@[i])@[src as int].value(),
        decreases rows@.len() - j,
    {
        assert(src < rows@[j as int]@.len());
        match rows[j][src] {
            Scalar::Float32(x) => r.push(x),
            _ => {},
        }
        j = j + 1;
    }
    assert(r@.map_values(|x: u32| seq![x as int]) =~= Seq::new(rows@.len(), |j: int| seq![rows@[j]@[src as int].value()]));
    r
}

fn column_f64(rows: &Vec<Vec<Scalar>>, src: usize) -> (r: Vec<u64>)
    requires
        forall|j: int| 0 <= j < rows@.len() ==> src < (#[trigger] rows@[j])@.len() && rows@[j]@[src as int] is Float64,
    ensures
        r@.map_values(|x: u64| seq![x as int]) == Seq::new(rows@.len(), |j: int| seq![rows@[j]@[src as int].value()]),
{
    let mut r: Vec<u64> = Vec::new();
    let mut j: usize = 0;
    while j < rows.len()
        invariant
            0 <= j <= rows@.len(),
            r@.len() == j,
            forall|i: int| 0 <= i < rows@.len() ==> src < (#[trigger] rows@[i])@.len() && rows@[i]@[src as int] is Float64,
            forall|i: int| 0 <= i < j ==> r@[i] as int == (#[trigger] rows@[i])@[src as int].value(),
        decreases rows@.len() - j,
    {
        assert(src < rows@[j as int]@.len());
        match rows[j][src] {
            Scalar::Float64(x) => r.push(x),
            _ => {},
        }
        j = j + 1;
    }
    assert(r@.map_values(|x: u64| seq![x as int]) =~= Seq::new(rows@.len(), |j: int| seq![rows@[j]@[src as int].value()]));
    r
}

pub open spec fn rows_view(rows: Seq<Vec<Scalar>>) -> Seq<Seq<Scalar>> {
    rows.map_values(|r: Vec<Scalar>| r@)
}

/// Decodes the record that starts at `buf[start]` into one scalar per property.
fn decode_row(l: &RecordLayout, buf: &[u8], start: usize) -> (r: Vec<Scalar>)
    requires
        l.wf(),
        start + l.record_size <= buf@.len(),
    ensures
        r@ == record_scalars(*l, buf@, start as int),
{
    let ghost props = l.properties();
    let n = l.readers.len();
    let blen = buf.len();
    let mut r: Vec<Scalar> = Vec::new();
    let mut i: usize = 0;
    while i < n
        invariant
            l.wf(),
            props == l.properties(),
            n == l.readers@.len(),
            start + l.record_size <= buf@.len(),
            blen == buf@.len(),
            0 <= i <= n,
            r@.len() == i,
            forall|k: int| 0 <= k < i ==> r@[k] == #[trigger] record_scalars(*l, buf@, start as int)[k],
        decreases n - i,
    {
        let rd = &l.readers[i];
        proof {
            crate::layout::lemma_offset_grows(props, i as int + 1, n as int);
            assert(props[i as int].data_type == rd.data_type);
            assert(l.readers@[i as int].at == crate::layout::offset_of(props, i as int));
            assert(crate::layout::offset_of(props, i as int + 1) == rd.at + rd.data_type.width());
        }
        let s = decode_scalar(rd.data_type, buf, start + rd.at);
        proof {
            crate::scalar::lemma_scalar_of(s);
        }
        r.push(s);
        i = i + 1;
    }
    assert(r@ =~= record_scalars(*l, buf@, start as int));
    r
}

fn channel_at(o: Option<usize>, row: &Vec<Scalar>) -> (r: u8)
    requires
        o is Some ==> o->Some_0 < row@.len(),
    ensures
        r as int == channel_from(o, row@),
{
    match o {
        Some(i) => to_channel(row[i]),
        None => 0,
    }
}

/// The layout's coordinate and channel indices fall within a record.
proof fn lemma_indices(l: RecordLayout)
    requires
        l.wf(),
    ensures
        l.x < l.readers@.len(),
        l.y < l.readers@.len(),
        l.z < l.readers@.len(),
        l.red is Some ==> l.red->Some_0 < l.readers@.len(),
        l.green is Some ==> l.green->Some_0 < l.readers@.len(),
        l.blue is Some ==> l.blue->Some_0 < l.readers@.len(),
{
    let p = l.properties();
    let n = p.len() as int;
    crate::layout::lemma_last_with_bound(p, n, Role::X);
    crate::layout::lemma_last_with_bound(p, n, Role::Y);
    crate::layout::lemma_last_with_bound(p, n, Role::Z);
    crate::layout::lemma_last_with_bound(p, n, Role::Red);
    crate::layout::lemma_last_with_bound(p, n, Role::Green);
    crate::layout::lemma_last_with_bound(p, n, Role::Blue);
}

/// Decodes `count` consecutive records from the start of `buf` into a batch.
pub fn decode_records(l: &RecordLayout, buf: &[u8], count: usize) -> (r: PointsBatch)
    requires
        l.wf(),
        count * l.record_size <= buf@.len(),
    ensures
        holds_rows(r, *l, records(*l, buf@, count as int)),
        r.wf(),
        r.position@.len() == count,
{
    let ghost want = records(*l, buf@, count as int);
    let n = l.readers.len();
    proof {
        lemma_indices(*l);
    }
    let blen = buf.len();
    let mut rows: Vec<Vec<Scalar>> = Vec::new();
    let mut start: usize = 0;
    let mut j: usize = 0;
    while j < count
        invariant
            l.wf(),
            n == l.readers@.len(),
            count * l.record_size <= buf@.len(),
            blen == buf@.len(),
            want == records(*l, buf@, count as int),
            0 <= j <= count,
            start == j * l.record_size,
            rows@.len() == j,
            forall|i: int| 0 <= i < j ==> (#[trigger] rows@[i])@ == want[i],
        decreases count - j,
    {
        assert(start + l.record_size <= buf@.len()) by (nonlinear_arith)
            requires
                start == j * l.record_size,
                j < count,
                count * l.record_size <= buf@.len(),
        ;
        let row = decode_row(l, buf, start);
        rows.push(row);
        start = start + l.record_size;
        j = j + 1;
        assert(start == j * l.record_size) by (nonlinear_arith)
            requires
                start == (j - 1) * l.record_size + l.record_size,
        ;
    }
    assert(rows_view(rows@) =~= want);
    assert(forall|i: int| 0 <= i < count ==> (#[trigger] rows@[i])@.len() == n);
    let mut position: Vec<[Scalar; 3]> = Vec::new();
    let mut j: usize = 0;
    while j < count
        invariant
            0 <= j <= count == rows@.len(),
            l.x < n && l.y < n && l.z < n,
            forall|i: int| 0 <= i < count ==> (#[trigger] rows@[i])@.len() == n,
            position@.len() == j,
            forall|i: int| 0 <= i < j ==> crate::batch::triple(#[trigger] position@[i]) == position_of(*l, rows@[i]@),
        decreases count - j,
    {
        let row = &rows[j];
        let p: [Scalar; 3] = [row[l.x], row[l.y], row[l.z]];
        assert(crate::batch::triple(p) =~= position_of(*l, row@));
        position.push(p);
        j = j + 1;
    }
    let mut batch = batch_from_readers(l);
    let ghost c = color_columns(*l);
    let ghost empty = batch;
    let mut attributes: Vec<Attribute> = Vec::new();
    if l.red.is_some() || l.green.is_some() || l.blue.is_some() {
        let mut colors: Vec<[u8; 3]> = Vec::new();
        let mut j: usize = 0;
        while j < count
            invariant
                0 <= j <= count == rows@.len(),
                l.red is Some ==> l.red->Some_0 < n,
                l.green is Some ==> l.green->Some_0 < n,
                l.blue is Some ==> l.blue->Some_0 < n,
                forall|i: int| 0 <= i < count ==> (#[trigger] rows@[i])@.len() == n,
                colors@.len() == j,
                forall|i: int| 0 <= i < j ==> seq![(#[trigger] colors@[i])@[0] as int, colors@[i]@[1] as int, colors@[i]@[2] as int] == color_of(*l, rows@[i]@),
            decreases count - j,
        {
            let row = &rows[j];
            let px: [u8; 3] = [channel_at(l.red, row), channel_at(l.green, row), channel_at(l.blue, row)];
            colors.push(px);
            j = j + 1;
        }
        let name = batch.attributes.remove(0).name;
        attributes.push(Attribute { name, data: AttributeData::U8Vec3(colors) });
        assert(attributes@[0].data.entries() =~= Seq::new(count as nat, |i: int| color_of(*l, want[i])));
    }
    let mut k: usize = 0;
    while k < l.columns.len()
        invariant
            l.wf(),
            0 <= k <= l.columns@.len(),
            c == color_columns(*l),
            count == rows@.len(),
            want == rows_view(rows@),
            want == records(*l, buf@, count as int),
            n == l.readers@.len(),
            forall|i: int| 0 <= i < count ==> (#[trigger] rows@[i])@ == want[i],
            forall|i: int| 0 <= i < count ==> (#[trigger] rows@[i])@.len() == n,
            attributes@.len() == c + k,
            l.has_color() ==> {
                let a = attributes@[0];
                &&& spells(a.name@, "color"@)
                &&& a.data.kind() == ColumnKind::U8Vec3
                &&& a.data.entries() == Seq::new(count as nat, |j: int| color_of(*l, want[j]))
            },
            forall|i: int|
                0 <= i < k ==> {
                    let a = #[trigger] attributes@[c + i];
                    let col = l.columns@[i];
                    &&& a.name@ == col.name@
                    &&& a.data.kind() == col.kind
                    &&& a.data.entries() == Seq::new(count as nat, |j: int| column_entry(col, want[j]))
                },
        decreases l.columns@.len() - k,
    {
        let col = &l.columns[k];
        let src = col.source;
        proof {
            lemma_column_sources(*l, k as int);
            assert forall|j: int| 0 <= j < count implies #[trigger] rows@[j]@ == record_scalars(*l, buf@, j * l.record_size) by {
                assert(rows@[j]@ == want[j]);
            }
        }
        let data = match col.kind {
            ColumnKind::U8 => AttributeData::U8(column_u8(&rows, src)),
            ColumnKind::U64 => AttributeData::U64(column_u64(&rows, src)),
            ColumnKind::I64 => AttributeData::I64(column_i64(&rows, src)),
            ColumnKind::F32 => AttributeData::F32(column_f32(&rows, src)),
            ColumnKind::F64 => AttributeData::F64(column_f64(&rows, src)),
            ColumnKind::U8Vec3 => AttributeData::U8Vec3(Vec::new()),
            ColumnKind::F64Vec3 => AttributeData::F64Vec3(Vec::new()),
        };
        assert(data.entries() =~= Seq::new(count as nat, |j: int| column_entry(*col, want[j])));
        attributes.push(Attribute { name: crate::bytes::to_vec(col.name.as_slice()), data });
        k = k + 1;
    }
    let r = PointsBatch { position, attributes };
    assert(r.positions() =~= Seq::new(count as nat, |j: int| position_of(*l, want[j])));
    assert forall|k: int| 0 <= k < r.attributes@.len() implies (#[trigger] r.attributes@[k]).data.entries().len() == count by {
        if k >= c {
            let i = k - c;
            assert(r.attributes@[c + i].data.entries().len() == count);
        }
    }
    r
}

// ---------------------------------------------------------------------
// Opening a file and walking its records

/// Why a file cannot be decoded.
#[derive(Debug, Clone, Copy, PartialEq, Eq, Structural)]
pub enum OpenError {
    Header(HeaderError),
    /// No element is named `vertex`.
    NoVertexElement,
    /// The records are not binary little-endian.
    UnsupportedFormat,
    Schema(SchemaError),
    /// The vertex count is negative.
    NegativeCount,
}

/// Index of the first element named `vertex`.
pub open spec fn vertex_index(els: Seq<ElementModel>) -> Option<int> {
    vertex_from(els, 0)
}

/// What opening a parsed header gives.
pub open spec fn open_outcome(h: HeaderModel) -> Result<(), OpenError> {
    match vertex_index(h.elements) {
        None => Err(OpenError::NoVertexElement),
        Some(v) => if h.format != Format::BinaryLittleEndianV1 {
            Err(OpenError::UnsupportedFormat)
        } else {
            match compile_outcome(h.elements[v].properties) {
                Err(e) => Err(OpenError::Schema(e)),
                Ok(_) => if h.elements[v].count < 0 {
                    Err(OpenError::NegativeCount)
                } else {
                    Ok(())
                },
            }
        },
    }
}

/// The lengths of the batches that `remaining` points make, `b` at most each.
pub open spec fn batch_sizes(remaining: nat, b: nat) -> Seq<nat>
    decreases remaining,
{
    if remaining == 0 || b == 0 {
        seq![]
    } else if remaining <= b {
        seq![remaining]
    } else {
        seq![b] + batch_sizes((remaining - b) as nat, b)
    }
}

pub open spec fn sum(s: Seq<nat>) -> nat
    decreases s.len(),
{
    if s.len() == 0 {
        0
    } else {
        s[0] + sum(s.drop_first())
    }
}

/// The decoding state of one file: its layout, its vertex count and how
/// many points have been decoded.
#[derive(Debug)]
pub struct PlyIterator {
    pub layout: RecordLayout,
    pub num_total_points: i64,
    pub batch_size: usize,
    pub point_count: u64,
    pub offset: Option<OffsetText>,
}

impl PlyIterator {
    pub open spec fn wf(&self) -> bool {
        &&& self.layout.wf()
        &&& self.batch_size > 0
        &&& 0 <= self.point_count <= self.num_total_points
    }

    /// Points not decoded yet.
    pub open spec fn remaining(&self) -> nat {
        (self.num_total_points - self.point_count) as nat
    }

    /// The lengths of the batches still to come.
    pub open spec fn batches_left(&self) -> Seq<nat> {
        batch_sizes(self.remaining(), self.batch_size as nat)
    }

    /// Sets up decoding for a parsed header: finds the vertex element, checks
    /// the format and compiles the vertex record layout.
    pub fn from_header(h: Header, batch_size: usize) -> (r: Result<PlyIterator, OpenError>)
        requires
            batch_size > 0,
        ensures
            r is Ok <==> open_outcome(h@) is Ok,
            r is Err ==> r == Err::<PlyIterator, OpenError>(open_outcome(h@)->Err_0),
            r is Ok ==> {
                let it = r->Ok_0;
                let v = vertex_index(h@.elements)->Some_0;
                &&& it.wf()
                &&& it.layout.compiled_from(h@.elements[v].properties)
                &&& it.num_total_points == h@.elements[v].count
                &&& it.point_count == 0
                &&& it.batch_size == batch_size
                &&& offset_view(it.offset) == h@.offset
            },
    {
        let mut v: usize = 0;
        let ghost ev = elements_view(h.elements@);
        while v < h.elements.len()
            invariant
                ev == elements_view(h.elements@),
                0 <= v <= ev.len(),
                vertex_index(ev) == vertex_from(ev, v as int),
            ensures
                0 <= v <= ev.len(),
                vertex_index(ev) == vertex_from(ev, v as int),
                v < ev.len() ==> spells(ev[v as int].name, "vertex"@),
            decreases ev.len() - v,
        {
            assert(ev[v as int] == h.elements@[v as int]@);
            if token_is(h.elements[v].name.as_slice(), "vertex") {
                break;
            }
            v = v + 1;
        }
        if v == h.elements.len() {
            return Err(OpenError::NoVertexElement);
        }
        match h.format {
            Format::BinaryLittleEndianV1 => {},
            _ => {
                return Err(OpenError::UnsupportedFormat);
            },
        }
        let vertex = &h.elements[v];
        assert(ev[v as int] == vertex@);
        let layout = match compile(&vertex.properties) {
            Ok(l) => l,
            Err(e) => {
                return Err(OpenError::Schema(e));
            },
        };
        if vertex.count < 0 {
            return Err(OpenError::NegativeCount);
        }
        Ok(
            PlyIterator {
                layout,
                num_total_points: vertex.count,
                batch_size,
                point_count: 0,
                offset: h.offset,
            },
        )
    }

    /// Parses the header at the start of `data` and sets up decoding; on
    /// success also returns where the records begin.
    pub fn from_bytes(data: &[u8], batch_size: usize) -> (r: Result<(PlyIterator, usize), OpenError>)
        requires
            batch_size > 0,
        ensures
            match parsed(data@) {
                Err(e) => r == Err::<(PlyIterator, usize), OpenError>(OpenError::Header(e)),
                Ok((h, len)) => match open_outcome(h) {
                    Err(e) => r == Err::<(PlyIterator, usize), OpenError>(e),
                    Ok(_) => r is Ok && {
                        let (it, start) = r->Ok_0;
                        let v = vertex_index(h.elements)->Some_0;
                        &&& start == len
                        &&& it.wf()
                        &&& it.layout.compiled_from(h.elements[v].properties)
                        &&& it.num_total_points == h.elements[v].count
                        &&& it.point_count == 0
                        &&& it.batch_size == batch_size
                        &&& offset_view(it.offset) == h.offset
                    },
                },
            },
    {
        match parse_header(data) {
            Err(e) => Err(OpenError::Header(e)),
            Ok((h, len)) => match PlyIterator::from_header(h, batch_size) {
                Err(e) => Err(e),
                Ok(it) => Ok((it, len)),
            },
        }
    }

    /// Number of points in the next batch; 0 once every point is decoded.
    pub fn next_batch_len(&self) -> (r: usize)
        requires
            self.wf(),
        ensures
            r == if self.remaining() < self.batch_size { self.remaining() } else { self.batch_size as nat },
    {
        let left: u64 = (self.num_total_points as u64) - self.point_count;
        if left < self.batch_size as u64 {
            left as usize
        } else {
            self.batch_size
        }
    }

    /// Bytes the next batch's records take.
    pub open spec fn next_bytes(&self) -> nat {
        let k = if self.remaining() < self.batch_size { self.remaining() } else { self.batch_size as nat };
        k * (self.layout.record_size as nat)
    }

    /// Decodes the next batch from `buf`, which holds its records from its
    /// first byte; `None` once every point has been decoded.
    pub fn next(&mut self, buf: &[u8]) -> (r: Option<PointsBatch>)
        requires
            old(self).wf(),
            old(self).next_bytes() <= buf@.len(),
        ensures
            final(self).wf(),
            r is None <==> old(self).remaining() == 0,
            r is None ==> *final(self) == *old(self),
            r is Some ==> {
                let k = old(self).batches_left()[0];
                &&& old(self).batches_left().len() > 0
                &&& holds_rows(r->Some_0, old(self).layout, records(old(self).layout, buf@, k as int))
                &&& r->Some_0.wf()
                &&& r->Some_0.position@.len() == k
                &&& final(self).point_count == old(self).point_count + k
                &&& final(self).batches_left() == old(self).batches_left().drop_first()
                &&& final(self).layout == old(self).layout
                &&& final(self).num_total_points == old(self).num_total_points
                &&& final(self).batch_size == old(self).batch_size
            },
    {
        let k = self.next_batch_len();
        if k == 0 {
            return None;
        }
        proof {
            lemma_batch_sizes_step(self.remaining(), self.batch_size as nat);
        }
        let batch = decode_records(&self.layout, buf, k);
        self.point_count = self.point_count + k as u64;
        Some(batch)
    }

    /// Number of batches the whole file makes.
    pub fn size_hint(&self) -> (r: u64)
        requires
            self.wf(),
        ensures
            r as nat == batch_sizes(self.num_total_points as nat, self.batch_size as nat).len(),
    {
        proof {
            lemma_batch_count(self.num_total_points as nat, self.batch_size as nat);
        }
        div_ceil(self.num_total_points as u64, self.batch_size as u64)
    }
}

pub open spec fn vertex_from(els: Seq<ElementModel>, v: int) -> Option<int>
    decreases els.len() - v,
{
    if v >= els.len() {
        None
    } else if spells(els[v].name, "vertex"@) {
        Some(v)
    } else {
        vertex_from(els, v + 1)
    }
}

/// Relies on num_integer's `div_ceil` on unsigned integers: the quotient
/// rounded up.
#[verifier::external_body]
fn div_ceil(n: u64, d: u64) -> (r: u64)
    requires
        d > 0,
    ensures
        r == n / d + if n % d == 0 { 0u64 } else { 1u64 },
{
    num_integer::div_ceil(n, d)
}

proof fn lemma_batch_sizes_step(remaining: nat, b: nat)
    requires
        remaining > 0,
        b > 0,
    ensures
        batch_sizes(remaining, b).len() > 0,
        batch_sizes(remaining, b)[0] == if remaining < b { remaining } else { b },
        batch_sizes(remaining, b).drop_first() == batch_sizes(
            (remaining - batch_sizes(remaining, b)[0]) as nat,
            b,
        ),
{
    if remaining <= b {
        assert(batch_sizes(remaining, b).drop_first() =~= seq![]);
    } else {
        assert(batch_sizes(remaining, b).drop_first() =~= batch_sizes((remaining - b) as nat, b));
    }
}

/// A vertex count of `n` read `b` at a time gives ceil(n / b) batches.
pub proof fn lemma_batch_count(n: nat, b: nat)
    requires
        b > 0,
    ensures
        batch_sizes(n, b).len() == n / b + if n % b == 0 { 0int } else { 1int },
    decreases n,
{
    if n == 0 {
    } else if n <= b {
        if n == b {
            assert(n / b == 1) by (nonlinear_arith) requires n == b, b > 0;
            assert(n % b == 0) by (nonlinear_arith) requires n == b, b > 0;
        } else {
            assert(n / b == 0) by (nonlinear_arith) requires n < b;
            assert(n % b == n) by (nonlinear_arith) requires n < b;
        }
    } else {
        lemma_batch_count((n - b) as nat, b);
        assert((n - b) as int / b as int == n as int / b as int - 1 && (n - b) as int % b as int == n as int % b as int) by {
            vstd::arithmetic::div_mod::lemma_div_plus_one((n - b) as int, b as int);
            vstd::arithmetic::div_mod::lemma_mod_sub_multiples_vanish(n as int, b as int);
        };
    }
}

/// Decoding `n` points `b` at a time: ceil(n / b) batches, all of length `b`
/// but the last, which is not empty, and `n` points in all.
pub proof fn lemma_batches_cover(n: nat, b: nat)
    requires
        b > 0,
    ensures
        batch_sizes(n, b).len() == n / b + if n % b == 0 { 0int } else { 1int },
        forall|i: int| 0 <= i < batch_sizes(n, b).len() - 1 ==> #[trigger] batch_sizes(n, b)[i] == b,
        batch_sizes(n, b).len() > 0 ==> batch_sizes(n, b).last() > 0,
        sum(batch_sizes(n, b)) == n,
    decreases n,
{
    lemma_batch_count(n, b);
    if n > b {
        let rest = batch_sizes((n - b) as nat, b);
        lemma_batches_cover((n - b) as nat, b);
        let s = batch_sizes(n, b);
        assert(s == seq![b] + rest);
        assert(s.drop_first() =~= rest);
        assert(sum(s) == s[0] + sum(s.drop_first()));
        assert forall|i: int| 0 <= i < s.len() - 1 implies #[trigger] s[i] == b by {
            if i > 0 {
                assert(s[i] == rest[i - 1]);
            }
        }
    } else if n > 0 {
        let s = batch_sizes(n, b);
        assert(s.drop_first() =~= seq![]);
        assert(sum(s.drop_first()) == 0);
        assert(sum(s) == s[0] + sum(s.drop_first()));
    }
}

} // verus!
