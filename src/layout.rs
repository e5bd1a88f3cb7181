//! The record layout of the vertex element, compiled once per file: one
//! decode step per declared property, in declared order, and where each
//! decoded value goes in a batch.
use vstd::prelude::*;

use crate::bytes::{bytes_eq, spells, to_vec, token_is};
use crate::header::{props_view, PropertyModel, ScalarProperty};
use crate::number::is_digit;
use crate::scalar::DataType;

verus! {

/// What a property stands for, by its name.
#[derive(Debug, Clone, Copy, PartialEq, Eq, Structural)]
pub enum Role {
    X,
    Y,
    Z,
    Red,
    Green,
    Blue,
    /// Read past and never stored.
    Alpha,
    /// Any other name: a generic attribute column.
    Other,
}

pub open spec fn role_named(n: Seq<u8>) -> Role {
    if spells(n, "x"@) {
        Role::X
    } else if spells(n, "y"@) {
        Role::Y
    } else if spells(n, "z"@) {
        Role::Z
    } else if spells(n, "r"@) || spells(n, "red"@) {
        Role::Red
    } else if spells(n, "g"@) || spells(n, "green"@) {
        Role::Green
    } else if spells(n, "b"@) || spells(n, "blue"@) {
        Role::Blue
    } else if spells(n, "a"@) || spells(n, "alpha"@) {
        Role::Alpha
    } else {
        Role::Other
    }
}

pub fn role_of(n: &[u8]) -> (r: Role)
    ensures
        r == role_named(n@),
{
    if token_is(n, "x") {
        Role::X
    } else if token_is(n, "y") {
        Role::Y
    } else if token_is(n, "z") {
        Role::Z
    } else if token_is(n, "r") || token_is(n, "red") {
        Role::Red
    } else if token_is(n, "g") || token_is(n, "green") {
        Role::Green
    } else if token_is(n, "b") || token_is(n, "blue") {
        Role::Blue
    } else if token_is(n, "a") || token_is(n, "alpha") {
        Role::Alpha
    } else {
        Role::Other
    }
}

/// How an attribute column stores its values.
#[derive(Debug, Clone, Copy, PartialEq, Eq, Structural)]
pub enum ColumnKind {
    U8,
    U64,
    I64,
    /// IEEE 754 single-precision bit patterns.
    F32,
    /// IEEE 754 double-precision bit patterns.
    F64,
    /// Three 8-bit channels.
    U8Vec3,
    /// Three double-precision bit patterns.
    F64Vec3,
}

/// The column kind that stores a generic property of type `t`; `None` for
/// the types whose values are read past.
pub open spec fn storage_for(t: DataType) -> Option<ColumnKind> {
    match t {
        DataType::Uint8 => Some(ColumnKind::U8),
        DataType::Uint64 => Some(ColumnKind::U64),
        DataType::Int64 => Some(ColumnKind::I64),
        DataType::Float32 => Some(ColumnKind::F32),
        DataType::Float64 => Some(ColumnKind::F64),
        _ => None,
    }
}

pub fn column_kind_for(t: DataType) -> (r: Option<ColumnKind>)
    ensures
        r == storage_for(t),
{
    match t {
        DataType::Uint8 => Some(ColumnKind::U8),
        DataType::Uint64 => Some(ColumnKind::U64),
        DataType::Int64 => Some(ColumnKind::I64),
        DataType::Float32 => Some(ColumnKind::F32),
        DataType::Float64 => Some(ColumnKind::F64),
        _ => None,
    }
}

/// A generic attribute whose name ends in a digit is reserved for
/// multi-component attributes.
pub open spec fn is_reserved(p: PropertyModel) -> bool {
    role_named(p.name) == Role::Other && p.name.len() > 0 && is_digit(p.name.last())
}

/// One compiled decode step.
#[derive(Debug)]
pub struct PropertyReader {
    pub name: Vec<u8>,
    pub data_type: DataType,
    pub role: Role,
    /// Where the property starts within its record.
    pub at: usize,
}

/// A generic attribute column and the property it is read from.
#[derive(Debug)]
pub struct Column {
    pub name: Vec<u8>,
    pub kind: ColumnKind,
    pub source: usize,
}

pub struct ColumnModel {
    pub name: Seq<u8>,
    pub kind: ColumnKind,
    pub source: int,
}

impl View for Column {
    type V = ColumnModel;

    open spec fn view(&self) -> ColumnModel {
        ColumnModel { name: self.name@, kind: self.kind, source: self.source as int }
    }
}

pub open spec fn columns_view(c: Seq<Column>) -> Seq<ColumnModel> {
    c.map_values(|x: Column| x@)
}

/// Byte offset of property `i` within a record: the widths of those before it.
pub open spec fn offset_of(props: Seq<PropertyModel>, i: int) -> nat
    decreases i,
{
    if i <= 0 {
        0
    } else {
        offset_of(props, i - 1) + props[i - 1].data_type.width()
    }
}

/// Index of the last of the first `n` properties with role `r`: a later
/// declaration overrides an earlier one.
pub open spec fn last_with(props: Seq<PropertyModel>, n: int, r: Role) -> Option<int>
    decreases n,
{
    if n <= 0 {
        None
    } else if role_named(props[n - 1].name) == r {
        Some(n - 1)
    } else {
        last_with(props, n - 1, r)
    }
}

/// The generic columns of the first `n` properties, in declared order.
pub open spec fn columns_upto(props: Seq<PropertyModel>, n: int) -> Seq<ColumnModel>
    decreases n,
{
    if n <= 0 {
        seq![]
    } else {
        let before = columns_upto(props, n - 1);
        let p = props[n - 1];
        if role_named(p.name) == Role::Other && storage_for(p.data_type) is Some {
            before.push(
                ColumnModel { name: p.name, kind: storage_for(p.data_type)->Some_0, source: n - 1 },
            )
        } else {
            before
        }
    }
}

pub open spec fn has_color(props: Seq<PropertyModel>) -> bool {
    let n = props.len() as int;
    last_with(props, n, Role::Red) is Some || last_with(props, n, Role::Green) is Some
        || last_with(props, n, Role::Blue) is Some
}

/// Two columns would share a name.
pub open spec fn has_duplicate(cols: Seq<ColumnModel>, color: bool) -> bool {
    (exists|i: int, j: int| 0 <= i < j < cols.len() && cols[i].name == cols[j].name) || (color
        && exists|i: int| 0 <= i < cols.len() && spells(#[trigger] cols[i].name, "color"@))
}

/// Why a vertex element cannot be decoded.
#[derive(Debug, Clone, Copy, PartialEq, Eq, Structural)]
pub enum SchemaError {
    /// A generic attribute name ends in a digit: multi-component
    /// attributes are not supported yet.
    MultiComponentAttribute,
    /// One of `x`, `y`, `z` is not declared.
    MissingCoordinate,
    /// Two attribute columns would share a name.
    DuplicateAttribute,
    /// A record is wider than the address space.
    RecordTooLarge,
}

/// The compiled layout of a vertex record.
#[derive(Debug)]
pub struct RecordLayout {
    pub readers: Vec<PropertyReader>,
    pub record_size: usize,
    pub x: usize,
    pub y: usize,
    pub z: usize,
    pub red: Option<usize>,
    pub green: Option<usize>,
    pub blue: Option<usize>,
    pub columns: Vec<Column>,
}


impl RecordLayout {
    /// The layout is the one compiled from `props`.
    pub open spec fn compiled_from(&self, props: Seq<PropertyModel>) -> bool {
        let n = props.len() as int;
        &&& self.readers@.len() == n
        &&& forall|i: int|
            0 <= i < n ==> {
                let r = #[trigger] self.readers@[i];
                &&& r.name@ == props[i].name
                &&& r.data_type == props[i].data_type
                &&& r.role == role_named(props[i].name)
                &&& r.at == offset_of(props, i)
            }
        &&& self.record_size == offset_of(props, n)
        &&& Some(self.x as int) == last_with(props, n, Role::X)
        &&& Some(self.y as int) == last_with(props, n, Role::Y)
        &&& Some(self.z as int) == last_with(props, n, Role::Z)
        &&& opt_index(self.red) == last_with(props, n, Role::Red)
        &&& opt_index(self.green) == last_with(props, n, Role::Green)
        &&& opt_index(self.blue) == last_with(props, n, Role::Blue)
        &&& columns_view(self.columns@) == columns_upto(props, n)
    }

    /// The properties the layout decodes.
    pub open spec fn properties(&self) -> Seq<PropertyModel> {
        self.readers@.map_values(|r: PropertyReader| PropertyModel { name: r.name@, data_type: r.data_type })
    }

    /// A layout as `compile` produces it.
    pub open spec fn wf(&self) -> bool {
        &&& self.compiled_from(self.properties())
        &&& !has_duplicate(columns_view(self.columns@), has_color(self.properties()))
        &&& self.record_size > 0
    }

    pub open spec fn has_color(&self) -> bool {
        self.red is Some || self.green is Some || self.blue is Some
    }
}

pub open spec fn opt_index(o: Option<usize>) -> Option<int> {
    match o {
        Some(v) => Some(v as int),
        None => None,
    }
}

/// What compiling a vertex element's properties gives.
pub open spec fn compile_outcome(props: Seq<PropertyModel>) -> Result<(), SchemaError> {
    let n = props.len() as int;
    if exists|i: int| 0 <= i < n && is_reserved(#[trigger] props[i]) {
        Err(SchemaError::MultiComponentAttribute)
    } else if last_with(props, n, Role::X) is None || last_with(props, n, Role::Y) is None
        || last_with(props, n, Role::Z) is None {
        Err(SchemaError::MissingCoordinate)
    } else if has_duplicate(columns_upto(props, n), has_color(props)) {
        Err(SchemaError::DuplicateAttribute)
    } else if offset_of(props, n) > usize::MAX {
        Err(SchemaError::RecordTooLarge)
    } else {
        Ok(())
    }
}

pub proof fn lemma_offset_grows(props: Seq<PropertyModel>, i: int, j: int)
    requires
        0 <= i <= j,
    ensures
        offset_of(props, i) <= offset_of(props, j),
    decreases j - i,
{
    if i < j {
        lemma_offset_grows(props, i, j - 1);
    }
}

fn is_reserved_name(n: &[u8]) -> (r: bool)
    ensures
        r == (role_named(n@) == Role::Other && n@.len() > 0 && is_digit(n@.last())),
{
    match role_of(n) {
        Role::Other => n.len() > 0 && n[n.len() - 1] >= 48 && n[n.len() - 1] <= 57,
        _ => false,
    }
}

fn find_duplicate(cols: &Vec<Column>, color: bool) -> (r: bool)
    ensures
        r == has_duplicate(columns_view(cols@), color),
{
    let ghost cv = columns_view(cols@);
    let mut j: usize = 0;
    while j < cols.len()
        invariant
            cv == columns_view(cols@),
            0 <= j <= cols@.len(),
            forall|a: int, b: int| 0 <= a < b < j ==> cv[a].name != cv[b].name,
            color ==> forall|a: int| 0 <= a < j ==> !spells(#[trigger] cv[a].name, "color"@),
        decreases cols@.len() - j,
    {
        assert(cv[j as int] == cols@[j as int]@);
        if color && token_is(cols[j].name.as_slice(), "color") {
            assert(0 <= j < cv.len() && spells(cv[j as int].name, "color"@));
            return true;
        }
        let mut i: usize = 0;
        while i < j
            invariant
                cv == columns_view(cols@),
                0 <= i <= j < cols@.len(),
                forall|a: int| 0 <= a < i ==> cv[a].name != cv[j as int].name,
            decreases j - i,
        {
            assert(cv[i as int] == cols@[i as int]@);
            if bytes_eq(cols[i].name.as_slice(), cols[j].name.as_slice()) {
                return true;
            }
            i = i + 1;
        }
        j = j + 1;
    }
    false
}

/// Compiles the vertex element's properties, in declared order, into decode
/// steps, and checks that the layout can be decoded.
pub fn compile(props: &Vec<ScalarProperty>) -> (r: Result<RecordLayout, SchemaError>)
    ensures
        match compile_outcome(props_view(props@)) {
            Ok(_) => r is Ok && r->Ok_0.compiled_from(props_view(props@)) && r->Ok_0.wf(),
            Err(e) => r == Err::<RecordLayout, SchemaError>(e),
        },
{
    let ghost pv = props_view(props@);
    let n = props.len();
    let mut readers: Vec<PropertyReader> = Vec::new();
    let mut columns: Vec<Column> = Vec::new();
    let mut at: usize = 0;
    let mut overflow = false;
    let mut reserved = false;
    let mut x: Option<usize> = None;
    let mut y: Option<usize> = None;
    let mut z: Option<usize> = None;
    let mut red: Option<usize> = None;
    let mut green: Option<usize> = None;
    let mut blue: Option<usize> = None;
    let mut i: usize = 0;
    while i < n
        invariant
            n == props@.len(),
            pv == props_view(props@),
            0 <= i <= n,
            readers@.len() == i,
            forall|k: int|
                0 <= k < i ==> {
                    let r = #[trigger] readers@[k];
                    &&& r.name@ == pv[k].name
                    &&& r.data_type == pv[k].data_type
                    &&& r.role == role_named(pv[k].name)
                    &&& offset_of(pv, i as int) <= usize::MAX ==> r.at == offset_of(pv, k)
                },
            overflow == (offset_of(pv, i as int) > usize::MAX),
            !overflow ==> at == offset_of(pv, i as int),
            reserved == exists|k: int| 0 <= k < i && is_reserved(#[trigger] pv[k]),
            opt_index(x) == last_with(pv, i as int, Role::X),
            opt_index(y) == last_with(pv, i as int, Role::Y),
            opt_index(z) == last_with(pv, i as int, Role::Z),
            opt_index(red) == last_with(pv, i as int, Role::Red),
            opt_index(green) == last_with(pv, i as int, Role::Green),
            opt_index(blue) == last_with(pv, i as int, Role::Blue),
            columns_view(columns@) == columns_upto(pv, i as int),
        decreases n - i,
    {
        let p = &props[i];
        assert(pv[i as int] == p@);
        let role = role_of(p.name.as_slice());
        let width = p.data_type.byte_width();
        if is_reserved_name(p.name.as_slice()) {
            reserved = true;
        }
        let ghost cols_before = columns@;
        match role {
            Role::X => { x = Some(i); },
            Role::Y => { y = Some(i); },
            Role::Z => { z = Some(i); },
            Role::Red => { red = Some(i); },
            Role::Green => { green = Some(i); },
            Role::Blue => { blue = Some(i); },
            Role::Alpha => {},
            Role::Other => {
                match column_kind_for(p.data_type) {
                    Some(kind) => {
                        columns.push(Column { name: to_vec(p.name.as_slice()), kind, source: i });
                        assert(columns_view(columns@) =~= columns_view(cols_before).push(
                            columns@[i as int - i as int + cols_before.len()]@,
                        ));
                    },
                    None => {},
                }
            },
        }
        readers.push(PropertyReader { name: to_vec(p.name.as_slice()), data_type: p.data_type, role, at });
        proof {
            lemma_offset_grows(pv, i as int, i as int + 1);
        }
        if overflow || at > usize::MAX - width {
            overflow = true;
        } else {
            at = at + width;
        }
        i = i + 1;
        assert(reserved == exists|k: int| 0 <= k < i && is_reserved(#[trigger] pv[k])) by {
            if is_reserved(pv[i - 1]) {
                assert(0 <= i - 1 < i && is_reserved(pv[i - 1]));
            }
        }
    }
    if reserved {
        return Err(SchemaError::MultiComponentAttribute);
    }
    let (x, y, z) = match (x, y, z) {
        (Some(x), Some(y), Some(z)) => (x, y, z),
        _ => {
            return Err(SchemaError::MissingCoordinate);
        },
    };
    let color = red.is_some() || green.is_some() || blue.is_some();
    if find_duplicate(&columns, color) {
        return Err(SchemaError::DuplicateAttribute);
    }
    if overflow {
        return Err(SchemaError::RecordTooLarge);
    }
    let layout = RecordLayout { readers, record_size: at, x, y, z, red, green, blue, columns };
    assert(layout.properties() =~= pv);
    proof {
        lemma_last_with_bound(pv, n as int, Role::X);
        lemma_width_positive(pv, x as int);
        lemma_offset_grows(pv, x as int + 1, n as int);
    }
    Ok(layout)
}

pub proof fn lemma_last_with_bound(props: Seq<PropertyModel>, n: int, r: Role)
    ensures
        last_with(props, n, r) is Some ==> 0 <= last_with(props, n, r)->Some_0 < n,
    decreases n,
{
    if n > 0 {
        lemma_last_with_bound(props, n - 1, r);
    }
}

proof fn lemma_width_positive(props: Seq<PropertyModel>, i: int)
    requires
        0 <= i < props.len(),
    ensures
        offset_of(props, i + 1) > 0,
{
    assert(props[i].data_type.width() > 0);
}

} // verus!
