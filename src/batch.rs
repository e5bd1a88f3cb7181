//! The columnar batch that points are decoded into and encoded from.
use vstd::prelude::*;

use crate::layout::ColumnKind;
use crate::scalar::Scalar;

verus! {

/// One attribute column. Float columns hold IEEE 754 bit patterns.
#[derive(Debug, Clone, PartialEq)]
pub enum AttributeData {
    U8(Vec<u8>),
    U64(Vec<u64>),
    I64(Vec<i64>),
    F32(Vec<u32>),
    F64(Vec<u64>),
    U8Vec3(Vec<[u8; 3]>),
    F64Vec3(Vec<[u64; 3]>),
}

impl AttributeData {
    pub open spec fn kind(&self) -> ColumnKind {
        match self {
            AttributeData::U8(_) => ColumnKind::U8,
            AttributeData::U64(_) => ColumnKind::U64,
            AttributeData::I64(_) => ColumnKind::I64,
            AttributeData::F32(_) => ColumnKind::F32,
            AttributeData::F64(_) => ColumnKind::F64,
            AttributeData::U8Vec3(_) => ColumnKind::U8Vec3,
            AttributeData::F64Vec3(_) => ColumnKind::F64Vec3,
        }
    }

    /// The entries, each as the sequence of its components.
    pub open spec fn entries(&self) -> Seq<Seq<int>> {
        match self {
            AttributeData::U8(v) => v@.map_values(|x: u8| seq![x as int]),
            AttributeData::U64(v) => v@.map_values(|x: u64| seq![x as int]),
            AttributeData::I64(v) => v@.map_values(|x: i64| seq![x as int]),
            AttributeData::F32(v) => v@.map_values(|x: u32| seq![x as int]),
            AttributeData::F64(v) => v@.map_values(|x: u64| seq![x as int]),
            AttributeData::U8Vec3(v) => v@.map_values(
                |a: [u8; 3]| seq![a@[0] as int, a@[1] as int, a@[2] as int],
            ),
            AttributeData::F64Vec3(v) => v@.map_values(
                |a: [u64; 3]| seq![a@[0] as int, a@[1] as int, a@[2] as int],
            ),
        }
    }

    /// Number of entries.
    pub fn len(&self) -> (r: usize)
        ensures
            r == self.entries().len(),
    {
        match self {
            AttributeData::U8(v) => v.len(),
            AttributeData::U64(v) => v.len(),
            AttributeData::I64(v) => v.len(),
            AttributeData::F32(v) => v.len(),
            AttributeData::F64(v) => v.len(),
            AttributeData::U8Vec3(v) => v.len(),
            AttributeData::F64Vec3(v) => v.len(),
        }
    }

    /// Components per entry.
    pub fn dim(&self) -> (r: usize)
        ensures
            r == kind_dim(self.kind()),
    {
        match self {
            AttributeData::U8Vec3(_) | AttributeData::F64Vec3(_) => 3,
            _ => 1,
        }
    }
}

pub open spec fn kind_dim(k: ColumnKind) -> nat {
    match k {
        ColumnKind::U8Vec3 | ColumnKind::F64Vec3 => 3,
        _ => 1,
    }
}

/// A named attribute column.
#[derive(Debug, Clone, PartialEq)]
pub struct Attribute {
    pub name: Vec<u8>,
    pub data: AttributeData,
}

/// A chunk of points: a position per point and attribute columns of the
/// same length. A coordinate is a scalar as it stands on the wire.
#[derive(Debug, Clone, PartialEq)]
pub struct PointsBatch {
    pub position: Vec<[Scalar; 3]>,
    pub attributes: Vec<Attribute>,
}

pub open spec fn triple<T>(a: [T; 3]) -> Seq<T> {
    seq![a@[0], a@[1], a@[2]]
}

impl PointsBatch {
    /// The positions, each as its three coordinates.
    pub open spec fn positions(&self) -> Seq<Seq<Scalar>> {
        self.position@.map_values(|a: [Scalar; 3]| triple(a))
    }

    /// Every column has one entry per point.
    pub open spec fn wf(&self) -> bool {
        forall|k: int|
            0 <= k < self.attributes@.len() ==> (#[trigger] self.attributes@[k]).data.entries().len()
                == self.position@.len()
    }

    /// Number of points.
    pub fn len(&self) -> (r: usize)
        ensures
            r == self.position@.len(),
    {
        self.position.len()
    }
}

} // verus!
