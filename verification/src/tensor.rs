//! Tensor types, storage formats and the rectangular extents of shards.

use crate::model::{copy_all, same_words, Model};
use vstd::prelude::*;

verus! {

/// Columns in one register-sized panel of a matrix operand.
pub const AMP_COLUMN_MICRO: u32 = 16;

/// Inner rows that one accumulating product pass consumes.
pub const AMP_INNER_BLOCK: u32 = 64;

/// How an element is stored. Elements of eight bits share a power of two that
/// scales them.
#[derive(Clone, Copy, Debug, PartialEq, Eq, Structural)]
pub enum Precision {
    F8F143 { scale_exponent: i8 },
    F16,
    F32,
}

impl Precision {
    pub open spec fn spec_bytes(self) -> u64 {
        match self {
            Precision::F8F143 { .. } => 1,
            Precision::F16 => 2,
            Precision::F32 => 4,
        }
    }

    /// Bytes of one element.
    pub fn bytes(self) -> (r: u64)
        ensures
            r == self.spec_bytes(),
            1 <= r <= 4,
    {
        match self {
            Precision::F8F143 { .. } => 1,
            Precision::F16 => 2,
            Precision::F32 => 4,
        }
    }
}

#[derive(Clone, Copy, Debug, PartialEq, Eq, Structural)]
pub enum AmpOrder {
    Left,
    Output,
    TransposedLeft,
    TransposedRight,
    TransposedOutput,
}

#[derive(Clone, Copy, Debug, PartialEq, Eq, Structural)]
pub enum BlockMajorOrder {
    Matrix { row_block: u16, column_block: u16 },
    TransposedMatrix { row_block: u16, column_block: u16 },
}

/// Physical order of the elements of an allocation.
#[derive(Clone, Copy, Debug, PartialEq, Eq, Structural)]
pub enum ElementOrder {
    RowMajor,
    Amp(AmpOrder),
    BlockMajor(BlockMajorOrder),
}

#[derive(Clone, Copy, Debug, PartialEq, Eq, Structural)]
pub enum MemoryClass {
    Ipu21Standard,
    Ipu21Interleaved,
}

/// An axis counted from the first dimension, or from the last one, which is
/// `FromEnd(1)`.
#[derive(Clone, Copy, Debug, PartialEq, Eq, Structural)]
pub enum TensorAxis {
    FromStart(u16),
    FromEnd(u16),
}

impl TensorAxis {
    pub open spec fn spec_resolve(self, rank: nat) -> Option<int> {
        match self {
            TensorAxis::FromStart(axis) => if axis < rank {
                Some(axis as int)
            } else {
                None
            },
            TensorAxis::FromEnd(axis) => if 0 < axis <= rank {
                Some(rank - axis)
            } else {
                None
            },
        }
    }

    /// Position of the axis in a tensor of the given rank.
    pub fn resolve(self, rank: usize) -> (r: Option<usize>)
        ensures
            match r {
                Some(axis) => self.spec_resolve(rank as nat) == Some(axis as int),
                None => self.spec_resolve(rank as nat) is None,
            },
            r is Some ==> r->0 < rank,
    {
        match self {
            TensorAxis::FromStart(axis) => if (axis as usize) < rank {
                Some(axis as usize)
            } else {
                None
            },
            TensorAxis::FromEnd(axis) => if axis != 0 && axis as usize <= rank {
                Some(rank - axis as usize)
            } else {
                None
            },
        }
    }
}

/// How one axis is divided over the tiles of a value.
#[derive(Clone, Copy, Debug, PartialEq, Eq, Structural)]
pub struct AxisTiling {
    pub axis: TensorAxis,
    pub partitions: u16,
    pub block_size: u32,
    pub padding_multiple: u32,
    pub shard_padding_multiple: u32,
}

#[derive(Debug)]
pub struct TensorTiling {
    pub tile_count: u16,
    pub axes: Vec<AxisTiling>,
}

#[derive(Debug)]
pub struct Layout {
    pub order: ElementOrder,
    pub tiling: TensorTiling,
    pub memory_class: MemoryClass,
}

#[derive(Debug)]
pub struct TensorFormat {
    pub precision: Precision,
    pub layout: Layout,
}

#[derive(Debug)]
pub struct TensorShape(pub Vec<u32>);

#[derive(Debug)]
pub struct TensorType {
    pub shape: TensorShape,
    pub format: TensorFormat,
}

/// Abstract value of a [`Layout`].
pub struct LayoutModel {
    pub order: ElementOrder,
    pub tile_count: u16,
    pub axes: Seq<AxisTiling>,
    pub memory_class: MemoryClass,
}

/// Abstract value of a [`TensorFormat`].
pub struct FormatModel {
    pub precision: Precision,
    pub layout: LayoutModel,
}

/// Abstract value of a [`TensorType`].
pub struct TypeModel {
    pub shape: Seq<u32>,
    pub format: FormatModel,
}

impl View for Layout {
    type V = LayoutModel;

    open spec fn view(&self) -> LayoutModel {
        LayoutModel {
            order: self.order,
            tile_count: self.tiling.tile_count,
            axes: self.tiling.axes@,
            memory_class: self.memory_class,
        }
    }
}

impl View for TensorFormat {
    type V = FormatModel;

    open spec fn view(&self) -> FormatModel {
        FormatModel { precision: self.precision, layout: self.layout@ }
    }
}

impl View for TensorType {
    type V = TypeModel;

    open spec fn view(&self) -> TypeModel {
        TypeModel { shape: self.shape.0@, format: self.format@ }
    }
}

fn same_axes(a: &Vec<AxisTiling>, b: &Vec<AxisTiling>) -> (r: bool)
    ensures
        r == (a@ == b@),
{
    if a.len() != b.len() {
        return false;
    }
    let mut i: usize = 0;
    while i < a.len()
        invariant
            i <= a@.len(),
            a@.len() == b@.len(),
            forall|k: int| 0 <= k < i ==> a@[k] == b@[k],
        decreases a@.len() - i,
    {
        if a[i] != b[i] {
            return false;
        }
        i += 1;
    }
    assert(a@ =~= b@);
    true
}

/// The layout of a tensor that is whole on one tile, in the given order.
pub open spec fn replicated_layout(order: ElementOrder, memory_class: MemoryClass) -> LayoutModel {
    LayoutModel { order, tile_count: 1, axes: Seq::empty(), memory_class }
}

impl TensorTiling {
    /// Every one of `tile_count` tiles holds the whole tensor.
    pub fn replicated(tile_count: u16) -> (r: TensorTiling)
        ensures
            r.tile_count == tile_count,
            r.axes@ == Seq::<AxisTiling>::empty(),
    {
        TensorTiling { tile_count, axes: Vec::new() }
    }
}

impl Layout {
    /// A layout that keeps a whole tensor on one tile.
    pub fn local(order: ElementOrder, memory_class: MemoryClass) -> (r: Layout)
        ensures
            r@ == replicated_layout(order, memory_class),
    {
        Layout { order, tiling: TensorTiling::replicated(1), memory_class }
    }
}

impl Model for Layout {
    fn duplicate(&self) -> (r: Self) {
        Layout {
            order: self.order,
            tiling: TensorTiling {
                tile_count: self.tiling.tile_count,
                axes: copy_all(self.tiling.axes.as_slice()),
            },
            memory_class: self.memory_class,
        }
    }

    fn same(&self, other: &Self) -> (b: bool) {
        self.order == other.order && self.tiling.tile_count == other.tiling.tile_count && same_axes(
            &self.tiling.axes,
            &other.tiling.axes,
        ) && self.memory_class == other.memory_class
    }
}

impl Model for TensorFormat {
    fn duplicate(&self) -> (r: Self) {
        TensorFormat { precision: self.precision, layout: self.layout.duplicate() }
    }

    fn same(&self, other: &Self) -> (b: bool) {
        self.precision == other.precision && self.layout.same(&other.layout)
    }
}

impl Model for TensorType {
    fn duplicate(&self) -> (r: Self) {
        TensorType {
            shape: TensorShape(copy_all(self.shape.0.as_slice())),
            format: self.format.duplicate(),
        }
    }

    fn same(&self, other: &Self) -> (b: bool) {
        same_words(self.shape.0.as_slice(), other.shape.0.as_slice()) && self.format.same(
            &other.format,
        )
    }
}

/// A half-open range of one tensor axis. Elements from `logical_end` up to
/// `physical_end` are padding.
#[derive(Clone, Copy, Debug, PartialEq, Eq, PartialOrd, Ord, Hash, Structural)]
pub struct ShardExtent {
    pub axis: u16,
    pub start: u32,
    pub logical_end: u32,
    pub physical_end: u32,
}

impl ShardExtent {
    /// The useful elements come first and the padding follows them.
    pub open spec fn ordered(self) -> bool {
        self.start <= self.logical_end <= self.physical_end
    }
}

/// Every extent of a rectangle is ordered.
pub open spec fn extents_ordered(extents: Seq<ShardExtent>) -> bool {
    forall|i: int| 0 <= i < extents.len() ==> (#[trigger] extents[i]).ordered()
}

pub fn same_extents(a: &[ShardExtent], b: &[ShardExtent]) -> (r: bool)
    ensures
        r == (a@ == b@),
{
    if a.len() != b.len() {
        return false;
    }
    let mut i: usize = 0;
    while i < a.len()
        invariant
            i <= a@.len(),
            a@.len() == b@.len(),
            forall|k: int| 0 <= k < i ==> a@[k] == b@[k],
        decreases a@.len() - i,
    {
        if a[i] != b[i] {
            return false;
        }
        i += 1;
    }
    assert(a@ =~= b@);
    true
}

/// A contiguous range of bytes inside an allocation.
#[derive(Clone, Copy, Debug, PartialEq, Eq, Structural)]
pub struct ByteSpan {
    pub offset: u32,
    pub bytes: u32,
}

#[derive(Clone, Copy, Debug, PartialEq, Eq, Structural)]
pub enum StorageError {
    /// The view names another shard than the one it is applied to.
    WrongShard,
    /// The view does not fit into the allocation.
    InvalidView,
    /// A byte count does not fit into the address space.
    Overflow,
}

#[derive(Clone, Copy, Debug, PartialEq, Eq, Structural)]
pub enum LayoutError {
    RankMismatch,
    InvalidTiling,
    Overflow,
}

} // verus!
