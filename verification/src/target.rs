//! What lowering asks of the device: storage geometry of formats, resolution
//! of layouts onto tiles, and the cost figures that choose between equivalent
//! schedules.

use crate::model::deep;
use crate::tensor::{
    ByteSpan, FormatModel, Layout, LayoutError, LayoutModel, ShardExtent, StorageError,
    TensorFormat, TensorType, TypeModel,
};
use vstd::prelude::*;

verus! {

/// Figures of a device that lowering compares.
#[derive(Clone, Copy, Debug, PartialEq, Eq, Structural)]
pub struct TargetCosts {
    /// Cycles to launch a kernel.
    pub kernel_launch_cycles: u64,
    /// Cycles for one fragment of a logical exchange.
    pub logical_fragment_cycles: u64,
    /// Words that one transfer can carry.
    pub max_transfer_words: u32,
    /// Bytes of interleaved memory on one tile.
    pub interleaved_region_bytes: u32,
}

/// The tile and rectangle of one shard.
#[derive(Debug)]
pub struct ResolvedShard {
    pub tile: u16,
    pub extents: Vec<ShardExtent>,
}

impl View for ResolvedShard {
    type V = (u16, Seq<ShardExtent>);

    open spec fn view(&self) -> (u16, Seq<ShardExtent>) {
        (self.tile, self.extents@)
    }
}

/// The partitions of one axis: start, end of the useful elements, end.
#[derive(Debug)]
pub struct AxisBounds {
    pub partitions: Vec<(u32, u32, u32)>,
}

impl View for AxisBounds {
    type V = Seq<(u32, u32, u32)>;

    open spec fn view(&self) -> Seq<(u32, u32, u32)> {
        self.partitions@
    }
}

/// A layout applied to a shape.
#[derive(Debug)]
pub struct ResolvedLayout {
    pub padded_shape: Vec<u32>,
    pub shards: Vec<ResolvedShard>,
    /// Partitions of every axis.
    pub bounds: Vec<AxisBounds>,
}

/// Abstract value of a [`ResolvedLayout`].
pub struct ResolvedModel {
    pub padded_shape: Seq<u32>,
    pub shards: Seq<(u16, Seq<ShardExtent>)>,
    pub bounds: Seq<Seq<(u32, u32, u32)>>,
}

impl View for ResolvedLayout {
    type V = ResolvedModel;

    open spec fn view(&self) -> ResolvedModel {
        ResolvedModel {
            padded_shape: self.padded_shape@,
            shards: deep(self.shards@),
            bounds: deep(self.bounds@),
        }
    }
}

impl ResolvedModel {
    /// The bounds of one partition of an axis.
    pub open spec fn axis_bounds(self, axis: int, partition: int) -> Option<(u32, u32, u32)> {
        if 0 <= axis < self.bounds.len() && 0 <= partition < self.bounds[axis].len() {
            Some(self.bounds[axis][partition])
        } else {
            None
        }
    }
}

impl ResolvedLayout {
    pub fn axis_bounds(&self, axis: usize, partition: u32) -> (r: Option<(u32, u32, u32)>)
        ensures
            r == self@.axis_bounds(axis as int, partition as int),
    {
        broadcast use crate::model::group_deep;

        if axis < self.bounds.len() && (partition as usize) < self.bounds[axis].partitions.len() {
            Some(self.bounds[axis].partitions[partition as usize])
        } else {
            None
        }
    }
}

/// Layouts for the partial results of a distributed product.
#[derive(Clone, Copy, Debug, PartialEq, Eq, Structural)]
pub enum ResultGrid {
    AmpLeft,
    AmpTransposedLeft,
    AmpOutput,
    AmpTransposedOutput,
}

/// A grid of partial results, with columns varying fastest over the tiles.
#[derive(Clone, Copy, Debug, PartialEq, Eq, Structural)]
pub struct PartialGrid {
    pub kind: ResultGrid,
    pub column_block: u32,
    pub tiles: u16,
    pub row_partitions: u16,
    pub column_partitions: u16,
}

/// `r` has the given elements, or is the given error.
pub open spec fn spans_are(
    r: Result<Vec<ByteSpan>, StorageError>,
    expected: Result<Seq<ByteSpan>, StorageError>,
) -> bool {
    match r {
        Ok(spans) => expected == Ok::<Seq<ByteSpan>, StorageError>(spans@),
        Err(e) => expected == Err::<Seq<ByteSpan>, StorageError>(e),
    }
}

/// A device that schedules are made for.
pub trait Target: Sized {
    spec fn spec_costs(&self) -> TargetCosts;

    fn costs(&self) -> (r: TargetCosts)
        ensures
            r == self.spec_costs(),
    ;

    /// Bytes of an allocation that holds the rectangle `extents`.
    spec fn spec_storage_bytes(&self, format: FormatModel, extents: Seq<ShardExtent>) -> Result<
        u32,
        StorageError,
    >;

    fn storage_bytes(&self, format: &TensorFormat, extents: &[ShardExtent]) -> (r: Result<
        u32,
        StorageError,
    >)
        ensures
            r == self.spec_storage_bytes(format@, extents@),
    ;

    /// Bytes of a rectangle inside an allocation, in address order.
    spec fn spec_physical_spans(
        &self,
        format: FormatModel,
        allocation: Seq<ShardExtent>,
        view: Seq<ShardExtent>,
    ) -> Result<Seq<ByteSpan>, StorageError>;

    fn physical_byte_spans(
        &self,
        format: &TensorFormat,
        allocation: &[ShardExtent],
        view: &[ShardExtent],
    ) -> (r: Result<Vec<ByteSpan>, StorageError>)
        ensures
            spans_are(r, self.spec_physical_spans(format@, allocation@, view@)),
    ;

    /// Bytes of the useful elements of a rectangle, in coordinate order.
    spec fn spec_logical_spans(
        &self,
        format: FormatModel,
        allocation: Seq<ShardExtent>,
        view: Seq<ShardExtent>,
    ) -> Result<Seq<ByteSpan>, StorageError>;

    fn logical_byte_spans(
        &self,
        format: &TensorFormat,
        allocation: &[ShardExtent],
        view: &[ShardExtent],
    ) -> (r: Result<Vec<ByteSpan>, StorageError>)
        ensures
            spans_are(r, self.spec_logical_spans(format@, allocation@, view@)),
    ;

    /// Whether panels of one format can be exchanged as panels of the other.
    spec fn spec_exchanges_panels(&self, from: FormatModel, to: FormatModel) -> bool;

    fn supports_f16_micro_panel_exchange(&self, from: &TensorFormat, to: &TensorFormat) -> (r: bool)
        ensures
            r == self.spec_exchanges_panels(from@, to@),
    ;

    /// Cycles to pack row-major elements into a tensor's own order.
    spec fn spec_pack_cycles(&self, tensor_type: TypeModel, elements: u64) -> u64;

    fn row_major_pack_cycles(&self, tensor_type: &TensorType, elements: u64) -> (r: u64)
        ensures
            r == self.spec_pack_cycles(tensor_type@, elements),
    ;

    /// The shards of a tensor.
    spec fn spec_resolve(&self, layout: LayoutModel, shape: Seq<u32>) -> Result<
        ResolvedModel,
        LayoutError,
    >;

    fn resolve(&self, layout: &Layout, shape: &[u32]) -> (r: Result<ResolvedLayout, LayoutError>)
        ensures
            match r {
                Ok(resolved) => self.spec_resolve(layout@, shape@) == Ok::<
                    ResolvedModel,
                    LayoutError,
                >(resolved@),
                Err(e) => self.spec_resolve(layout@, shape@) == Err::<ResolvedModel, LayoutError>(
                    e,
                ),
            },
    ;

    /// The layout of partial results.
    spec fn spec_partial_layout(&self, grid: PartialGrid) -> LayoutModel;

    fn partial_layout(&self, grid: PartialGrid) -> (r: Layout)
        ensures
            r@ == self.spec_partial_layout(grid),
    ;
}

} // verus!
