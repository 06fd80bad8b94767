//! Products that divide the inner axis over tiles: how their work is divided.

use crate::extents::{max, max_u32, min, min_u32};
use crate::low::{LowLoweringError, LowLoweringResult, LowShardId, ShardModel};
use crate::mid::{GemmOrientation, MidValueId, OperationId, ReductionStaging};
use crate::model::group_deep;
use crate::state::{found, LoweringState};
use crate::target::{PartialGrid, ResolvedModel, ResultGrid, Target};
use crate::tensor::{
    AmpOrder, AxisTiling, BlockMajorOrder, ElementOrder, FormatModel, Layout, LayoutModel,
    ShardExtent, TensorFormat, TensorShape, TensorType, TypeModel, AMP_INNER_BLOCK,
};
use vstd::prelude::*;

verus! {

/// The partitions of a product that divides its inner axis.
#[derive(Clone, Copy, Debug, PartialEq, Eq, Structural)]
pub struct Partitions {
    pub rows: u16,
    pub columns: u16,
    pub inner: u16,
    pub result_rows: u16,
    pub result_columns: u16,
}

impl Partitions {
    /// No axis is without partitions, the inner axis is divided, and there are
    /// enough partial results for all parts of a result, as far as parts are
    /// counted.
    pub open spec fn valid(self) -> bool {
        &&& self.rows != 0
        &&& self.columns != 0
        &&& self.inner >= 2
        &&& self.result_rows != 0
        &&& self.result_columns != 0
        &&& self.result_rows * self.result_columns <= self.inner || self.inner == u16::MAX
    }

    pub fn is_valid(&self) -> (r: bool)
        ensures
            r == self.valid(),
    {
        proof {
            assert(0 <= self.result_rows * self.result_columns <= 0xffff * 0xffff)
                by (nonlinear_arith)
                requires
                    0 <= self.result_rows <= 0xffff,
                    0 <= self.result_columns <= 0xffff,
            ;
        }
        self.rows != 0 && self.columns != 0 && self.inner >= 2 && self.result_rows != 0
            && self.result_columns != 0 && (self.result_rows as u32 * self.result_columns as u32
            <= self.inner as u32 || self.inner == u16::MAX)
    }
}

/// Which axes of the operands are rows, columns and inner elements.
#[derive(Clone, Copy, Debug, PartialEq, Eq, Structural)]
pub struct ProductAxes {
    pub left_row: usize,
    pub left_inner: usize,
    pub right_inner: usize,
    pub right_column: usize,
    pub output_row: usize,
    pub output_column: usize,
    pub output_rank: usize,
}

/// The axes of operands of the given ranks. A swapped product computes the
/// transposed result.
pub open spec fn product_axes(
    orientation: GemmOrientation,
    left_rank: nat,
    right_rank: nat,
    output_rank: nat,
) -> ProductAxes {
    match orientation {
        GemmOrientation::Normal => ProductAxes {
            left_row: (left_rank - 2) as usize,
            left_inner: (left_rank - 1) as usize,
            right_inner: (right_rank - 2) as usize,
            right_column: (right_rank - 1) as usize,
            output_row: (output_rank - 2) as usize,
            output_column: (output_rank - 1) as usize,
            output_rank: output_rank as usize,
        },
        GemmOrientation::Swapped => ProductAxes {
            left_row: (left_rank - 1) as usize,
            left_inner: (left_rank - 2) as usize,
            right_inner: (right_rank - 1) as usize,
            right_column: (right_rank - 2) as usize,
            output_row: (output_rank - 1) as usize,
            output_column: (output_rank - 2) as usize,
            output_rank: output_rank as usize,
        },
    }
}

pub fn axes_of(
    orientation: GemmOrientation,
    left_rank: usize,
    right_rank: usize,
    output_rank: usize,
) -> (r: ProductAxes)
    requires
        left_rank >= 2,
        right_rank >= 2,
        output_rank >= 2,
    ensures
        r == product_axes(orientation, left_rank as nat, right_rank as nat, output_rank as nat),
{
    match orientation {
        GemmOrientation::Normal => ProductAxes {
            left_row: left_rank - 2,
            left_inner: left_rank - 1,
            right_inner: right_rank - 2,
            right_column: right_rank - 1,
            output_row: output_rank - 2,
            output_column: output_rank - 1,
            output_rank,
        },
        GemmOrientation::Swapped => ProductAxes {
            left_row: left_rank - 1,
            left_inner: left_rank - 2,
            right_inner: right_rank - 1,
            right_column: right_rank - 2,
            output_row: output_rank - 1,
            output_column: output_rank - 2,
            output_rank,
        },
    }
}

// ---------------------------------------------------------------- columns

/// The position, from `i` on, of the tiling of an axis.
pub open spec fn tiling_position(axes: Seq<AxisTiling>, rank: nat, axis: int, i: int) -> Option<int>
    decreases axes.len() - i,
{
    if i >= axes.len() {
        None
    } else if axes[i].axis.spec_resolve(rank) == Some(axis) {
        Some(i)
    } else {
        tiling_position(axes, rank, axis, i + 1)
    }
}

pub fn find_tiling(axes: &Vec<AxisTiling>, rank: usize, axis: usize) -> (r: Option<usize>)
    ensures
        match r {
            Some(i) => tiling_position(axes@, rank as nat, axis as int, 0) == Some(i as int) && i
                < axes@.len(),
            None => tiling_position(axes@, rank as nat, axis as int, 0) is None,
        },
{
    let mut i: usize = 0;
    while i < axes.len()
        invariant
            i <= axes@.len(),
            tiling_position(axes@, rank as nat, axis as int, 0) == tiling_position(
                axes@,
                rank as nat,
                axis as int,
                i as int,
            ),
        decreases axes@.len() - i,
    {
        match axes[i].axis.resolve(rank) {
            Some(found) => {
                if found == axis {
                    return Some(i);
                }
            },
            None => {},
        }
        i += 1;
    }
    None
}

/// The columns of one partition: first, end of the useful ones, end.
pub type Columns = (u32, u32, u32);

/// The columns of partition `p` where whole blocks are dealt out evenly, the
/// first partitions taking one more.
pub open spec fn dealt_columns(
    blocks: int,
    partitions: int,
    grain: int,
    logical: u32,
    p: int,
) -> Columns {
    let short = blocks / partitions;
    let long = blocks % partitions;
    let first = p * short + if p < long {
        p
    } else {
        long
    };
    let count = short + if p < long {
        1int
    } else {
        0
    };
    let start = (first * grain) as u32;
    let end = ((first + count) * grain) as u32;
    (start, max(min(end, logical), start), end)
}

/// The columns of partition `p` of an output.
pub open spec fn partition_columns(
    resolved: ResolvedModel,
    axis: int,
    tiling: AxisTiling,
    partitions: u16,
    physical: u32,
    logical: u32,
    p: int,
) -> Result<Columns, LowLoweringError> {
    if tiling.partitions == partitions {
        match resolved.axis_bounds(axis, p) {
            Some(bounds) => Ok(bounds),
            None => Err(LowLoweringError::InvalidOperatorPlan),
        }
    } else {
        Ok(
            dealt_columns(
                (physical / tiling.block_size) as int,
                partitions as int,
                tiling.block_size as int,
                logical,
                p,
            ),
        )
    }
}

/// `done` followed by the columns of the partitions from `p` on.
pub open spec fn partitions_from(
    resolved: ResolvedModel,
    axis: int,
    tiling: AxisTiling,
    partitions: u16,
    physical: u32,
    logical: u32,
    p: int,
    done: Seq<Columns>,
) -> Result<Seq<Columns>, LowLoweringError>
    decreases partitions - p,
{
    if p >= partitions {
        Ok(done)
    } else {
        match partition_columns(resolved, axis, tiling, partitions, physical, logical, p) {
            Err(e) => Err(e),
            Ok(columns) => partitions_from(
                resolved,
                axis,
                tiling,
                partitions,
                physical,
                logical,
                p + 1,
                done.push(columns),
            ),
        }
    }
}

/// How an output's columns are divided, with the tiling of its column axis.
pub open spec fn column_partitions<M: Target>(
    target: &M,
    output: TypeModel,
    axes: ProductAxes,
    partitions: u16,
) -> Result<(AxisTiling, Seq<Columns>), LowLoweringError> {
    match target.spec_resolve(output.format.layout, output.shape) {
        Err(e) => Err(LowLoweringError::Layout(e)),
        Ok(resolved) => match tiling_position(
            output.format.layout.axes,
            axes.output_rank as nat,
            axes.output_column as int,
            0,
        ) {
            None => Err(LowLoweringError::InvalidOperatorPlan),
            Some(i) => {
                let tiling = output.format.layout.axes[i];
                if axes.output_column >= output.shape.len() || axes.output_column
                    >= resolved.padded_shape.len() || tiling.block_size == 0 {
                    Err(LowLoweringError::InvalidOperatorPlan)
                } else {
                    let logical = output.shape[axes.output_column as int];
                    let physical = resolved.padded_shape[axes.output_column as int];
                    if physical % tiling.block_size != 0 || physical / tiling.block_size
                        < partitions {
                        Err(LowLoweringError::InvalidOperatorPlan)
                    } else {
                        match partitions_from(
                            resolved,
                            axes.output_column as int,
                            tiling,
                            partitions,
                            physical,
                            logical,
                            0,
                            Seq::empty(),
                        ) {
                            Err(e) => Err(e),
                            Ok(columns) => Ok((tiling, columns)),
                        }
                    }
                }
            },
        },
    }
}

/// The end of the blocks of a partition is within all blocks.
proof fn lemma_dealt_within(blocks: int, partitions: int, grain: int, p: int)
    requires
        partitions > 0,
        blocks >= 0,
        grain >= 0,
        0 <= p < partitions,
    ensures
        ({
            let short = blocks / partitions;
            let long = blocks % partitions;
            let first = p * short + if p < long {
                p
            } else {
                long
            };
            let count = short + if p < long {
                1int
            } else {
                0
            };
            &&& 0 <= first
            &&& 0 <= count
            &&& 0 <= p * short
            &&& first + count <= blocks
            &&& 0 <= first * grain <= (first + count) * grain <= blocks * grain
        }),
{
    let short = blocks / partitions;
    let long = blocks % partitions;
    vstd::arithmetic::div_mod::lemma_fundamental_div_mod(blocks, partitions);
    assert(0 <= short) by (nonlinear_arith)
        requires
            short == blocks / partitions,
            blocks >= 0,
            partitions > 0,
    ;
    let extra = if p < long {
        p
    } else {
        long
    };
    let first = p * short + extra;
    let count = short + if p < long {
        1int
    } else {
        0
    };
    assert(0 <= p * short) by (nonlinear_arith)
        requires
            p >= 0,
            short >= 0,
    ;
    assert((p + 1) * short <= partitions * short) by (nonlinear_arith)
        requires
            p + 1 <= partitions,
            short >= 0,
    ;
    assert((p + 1) * short == p * short + short) by (nonlinear_arith);
    assert(first + count <= blocks);
    assert(0 <= first * grain <= (first + count) * grain <= blocks * grain) by (nonlinear_arith)
        requires
            0 <= first,
            0 <= count,
            first + count <= blocks,
            0 <= grain,
    ;
}

fn deal_columns(blocks: u32, partitions: u16, grain: u32, logical: u32, p: u16) -> (r: Columns)
    requires
        p < partitions,
        blocks * grain <= u32::MAX,
    ensures
        r == dealt_columns(
            blocks as int,
            partitions as int,
            grain as int,
            logical,
            p as int,
        ),
{
    proof {
        lemma_dealt_within(blocks as int, partitions as int, grain as int, p as int);
    }
    let short: u32 = blocks / partitions as u32;
    let long: u32 = blocks % partitions as u32;
    let wide: u32 = p as u32;
    let first: u32 = wide * short + if wide < long {
        wide
    } else {
        long
    };
    let count: u32 = short + if wide < long {
        1
    } else {
        0
    };
    let start: u32 = first * grain;
    let end: u32 = (first + count) * grain;
    (start, max_u32(min_u32(end, logical), start), end)
}

/// Divides an output's columns.
pub fn divide_columns<M: Target>(
    target: &M,
    output: &TensorType,
    axes: ProductAxes,
    partitions: u16,
) -> (r: LowLoweringResult<(AxisTiling, Vec<Columns>)>)
    ensures
        match r {
            Ok((tiling, columns)) => column_partitions(target, output@, axes, partitions) == Ok::<
                (AxisTiling, Seq<Columns>),
                LowLoweringError,
            >((tiling, columns@)),
            Err(e) => column_partitions(target, output@, axes, partitions) == Err::<
                (AxisTiling, Seq<Columns>),
                LowLoweringError,
            >(e),
        },
{
    let resolved = match target.resolve(&output.format.layout, output.shape.0.as_slice()) {
        Ok(resolved) => resolved,
        Err(e) => {
            return Err(LowLoweringError::Layout(e));
        },
    };
    let tiling = match find_tiling(
        &output.format.layout.tiling.axes,
        axes.output_rank,
        axes.output_column,
    ) {
        Some(i) => output.format.layout.tiling.axes[i],
        None => {
            return Err(LowLoweringError::InvalidOperatorPlan);
        },
    };
    if axes.output_column >= output.shape.0.len() || axes.output_column
        >= resolved.padded_shape.len() || tiling.block_size == 0 {
        return Err(LowLoweringError::InvalidOperatorPlan);
    }
    let logical: u32 = output.shape.0[axes.output_column];
    let physical: u32 = resolved.padded_shape[axes.output_column];
    let blocks: u32 = physical / tiling.block_size;
    if physical % tiling.block_size != 0 || blocks < partitions as u32 {
        return Err(LowLoweringError::InvalidOperatorPlan);
    }
    proof {
        vstd::arithmetic::div_mod::lemma_fundamental_div_mod(
            physical as int,
            tiling.block_size as int,
        );
        assert(blocks * tiling.block_size == physical) by (nonlinear_arith)
            requires
                physical == tiling.block_size * blocks + 0,
        ;
    }
    let mut columns: Vec<Columns> = Vec::new();
    let mut p: u16 = 0;
    while p < partitions
        invariant
            p <= partitions,
            partitions_from(
                resolved@,
                axes.output_column as int,
                tiling,
                partitions,
                physical,
                logical,
                0,
                Seq::empty(),
            ) == partitions_from(
                resolved@,
                axes.output_column as int,
                tiling,
                partitions,
                physical,
                logical,
                p as int,
                columns@,
            ),
        decreases partitions - p,
    {
        if tiling.partitions == partitions {
            match resolved.axis_bounds(axes.output_column, p as u32) {
                Some(bounds) => {
                    columns.push(bounds);
                },
                None => {
                    return Err(LowLoweringError::InvalidOperatorPlan);
                },
            }
        } else {
            columns.push(deal_columns(blocks, partitions, tiling.block_size, logical, p));
        }
        p += 1;
    }
    Ok((tiling, columns))
}

proof fn lemma_dealt_ends(blocks: int, partitions: int, grain: int, logical: u32)
    requires
        partitions > 0,
        blocks >= 0,
        grain >= 0,
        blocks * grain <= u32::MAX,
    ensures
        dealt_columns(blocks, partitions, grain, logical, 0).0 == 0,
        dealt_columns(blocks, partitions, grain, logical, partitions - 1).2 == blocks * grain,
{
    lemma_dealt_within(blocks, partitions, grain, 0);
    lemma_dealt_within(blocks, partitions, grain, partitions - 1);
    vstd::arithmetic::div_mod::lemma_fundamental_div_mod(blocks, partitions);
    let short = blocks / partitions;
    let long = blocks % partitions;
    assert(0 * short == 0) by (nonlinear_arith);
    assert(0 * grain == 0) by (nonlinear_arith);
    assert((partitions - 1) * short + short == partitions * short) by (nonlinear_arith);
}

/// Blocks are dealt out completely: the partitions follow each other without
/// gaps, from the first column to the last, each a number of whole blocks, and
/// no partition has more than one block more than another.
pub proof fn lemma_dealt_columns_cover_all(
    blocks: int,
    partitions: int,
    grain: int,
    logical: u32,
    p: int,
)
    requires
        partitions > 0,
        blocks >= 0,
        grain > 0,
        blocks * grain <= u32::MAX,
        0 <= p < partitions,
    ensures
        dealt_columns(blocks, partitions, grain, logical, 0).0 == 0,
        dealt_columns(blocks, partitions, grain, logical, partitions - 1).2 == blocks * grain,
        p + 1 < partitions ==> dealt_columns(blocks, partitions, grain, logical, p).2
            == dealt_columns(blocks, partitions, grain, logical, p + 1).0,
        ({
            let (start, _, end) = dealt_columns(blocks, partitions, grain, logical, p);
            let width = (end - start) / grain;
            &&& (end - start) % grain == 0
            &&& width == blocks / partitions || width == blocks / partitions + 1
        }),
{
    lemma_dealt_ends(blocks, partitions, grain, logical);
    lemma_dealt_within(blocks, partitions, grain, p);
    let short = blocks / partitions;
    let long = blocks % partitions;
    let first = p * short + if p < long {
        p
    } else {
        long
    };
    let count = short + if p < long {
        1int
    } else {
        0
    };
    let (start, _, end) = dealt_columns(blocks, partitions, grain, logical, p);
    assert(start == first * grain);
    assert(end == (first + count) * grain);
    assert((first + count) * grain - first * grain == count * grain) by (nonlinear_arith);
    assert((count * grain) / grain == count && (count * grain) % grain == 0) by (nonlinear_arith)
        requires
            grain > 0,
            count >= 0,
    ;
    if p + 1 < partitions {
        lemma_dealt_within(blocks, partitions, grain, p + 1);
        assert((p + 1) * short == p * short + short) by (nonlinear_arith);
    }
}

// ---------------------------------------------------------------- partials

/// The grid that partial results are in: the order of the output where products
/// can leave it, and else the order that they leave.
pub open spec fn partial_grid(
    orientation: GemmOrientation,
    order: ElementOrder,
    column_block: u32,
    partitions: Partitions,
) -> PartialGrid {
    PartialGrid {
        kind: match orientation {
            GemmOrientation::Normal => if order == ElementOrder::Amp(AmpOrder::Left) {
                ResultGrid::AmpLeft
            } else {
                ResultGrid::AmpOutput
            },
            GemmOrientation::Swapped => if order == ElementOrder::Amp(
                AmpOrder::TransposedLeft,
            ) {
                ResultGrid::AmpTransposedLeft
            } else {
                ResultGrid::AmpTransposedOutput
            },
        },
        column_block,
        tiles: if partitions.rows * partitions.columns > u16::MAX {
            u16::MAX
        } else {
            (partitions.rows * partitions.columns) as u16
        },
        row_partitions: partitions.rows,
        column_partitions: partitions.columns,
    }
}

/// An axis of partial results, divided as that of the output.
pub open spec fn partial_tiling(axis: AxisTiling, output: AxisTiling, partitions: u16) -> AxisTiling {
    AxisTiling {
        block_size: output.block_size,
        padding_multiple: if output.partitions == partitions {
            output.padding_multiple
        } else {
            output.block_size
        },
        shard_padding_multiple: if output.partitions == partitions {
            output.shard_padding_multiple
        } else {
            axis.shard_padding_multiple
        },
        ..axis
    }
}

/// The type of partial results.
pub open spec fn partial_type<M: Target>(
    target: &M,
    output: TypeModel,
    orientation: GemmOrientation,
    column_block: u32,
    partitions: Partitions,
    axes: ProductAxes,
    tiling: AxisTiling,
) -> TypeModel {
    let layout = target.spec_partial_layout(
        partial_grid(orientation, output.format.layout.order, column_block, partitions),
    );
    TypeModel {
        shape: output.shape,
        format: FormatModel {
            precision: output.format.precision,
            layout: match tiling_position(
                layout.axes,
                axes.output_rank as nat,
                axes.output_column as int,
                0,
            ) {
                Some(i) => LayoutModel {
                    axes: layout.axes.update(
                        i,
                        partial_tiling(layout.axes[i], tiling, partitions.columns),
                    ),
                    ..layout
                },
                None => layout,
            },
        },
    }
}

pub fn new_partial_type<M: Target>(
    target: &M,
    output: &TensorType,
    orientation: GemmOrientation,
    column_block: u32,
    partitions: Partitions,
    axes: ProductAxes,
    tiling: AxisTiling,
) -> (r: TensorType)
    ensures
        r@ == partial_type(
            target,
            output@,
            orientation,
            column_block,
            partitions,
            axes,
            tiling,
        ),
{
    let kind = match orientation {
        GemmOrientation::Normal => match output.format.layout.order {
            ElementOrder::Amp(AmpOrder::Left) => ResultGrid::AmpLeft,
            _ => ResultGrid::AmpOutput,
        },
        GemmOrientation::Swapped => match output.format.layout.order {
            ElementOrder::Amp(AmpOrder::TransposedLeft) => ResultGrid::AmpTransposedLeft,
            _ => ResultGrid::AmpTransposedOutput,
        },
    };
    let tiles: u16 = match partitions.rows.checked_mul(partitions.columns) {
        Some(tiles) => tiles,
        None => u16::MAX,
    };
    let mut layout = target.partial_layout(
        PartialGrid {
            kind,
            column_block,
            tiles,
            row_partitions: partitions.rows,
            column_partitions: partitions.columns,
        },
    );
    let ghost plain = layout@;
    match find_tiling(&layout.tiling.axes, axes.output_rank, axes.output_column) {
        Some(i) => {
            let mut axis = layout.tiling.axes[i];
            axis.block_size = tiling.block_size;
            axis.padding_multiple = tiling.block_size;
            if tiling.partitions == partitions.columns {
                axis.padding_multiple = tiling.padding_multiple;
                axis.shard_padding_multiple = tiling.shard_padding_multiple;
            }
            layout.tiling.axes.set(i, axis);
        },
        None => {},
    }
    TensorType {
        shape: TensorShape(crate::model::copy_all(output.shape.0.as_slice())),
        format: TensorFormat { precision: output.format.precision, layout },
    }
}

// ---------------------------------------------------------------- replicas

/// Two rectangles take up the same elements, padding included.
pub open spec fn same_footprint(a: Seq<ShardExtent>, b: Seq<ShardExtent>) -> bool {
    &&& a.len() == b.len()
    &&& forall|i: int|
        0 <= i < a.len() ==> (#[trigger] a[i]).start == b[i].start && a[i].physical_end
            == b[i].physical_end
}

pub fn has_same_footprint(a: &Vec<ShardExtent>, b: &Vec<ShardExtent>) -> (r: bool)
    ensures
        r == same_footprint(a@, b@),
{
    if a.len() != b.len() {
        return false;
    }
    let mut i: usize = 0;
    while i < a.len()
        invariant
            i <= a@.len(),
            a@.len() == b@.len(),
            forall|k: int|
                0 <= k < i ==> (#[trigger] a@[k]).start == b@[k].start && a@[k].physical_end
                    == b@[k].physical_end,
        decreases a@.len() - i,
    {
        if a[i].start != b[i].start || a[i].physical_end != b[i].physical_end {
            assert(!(a@[i as int].start == b@[i as int].start && a@[i as int].physical_end
                == b@[i as int].physical_end));
            return false;
        }
        i += 1;
    }
    true
}

/// How many of the listed shards from `k` on are replicas of shard `i`, and how
/// many of those come before it: on an earlier tile, or listed earlier.
pub open spec fn replicas_from(
    shards: Seq<ShardModel>,
    ids: Seq<LowShardId>,
    i: int,
    k: int,
) -> (int, int)
    decreases ids.len() - k,
{
    if k >= ids.len() {
        (0, 0)
    } else {
        let (count, before) = replicas_from(shards, ids, i, k + 1);
        let this = shards[ids[i].0 as int];
        let other = shards[ids[k].0 as int];
        if same_footprint(this.extents, other.extents) {
            (
                count + 1,
                before + if other.tile < this.tile || (other.tile == this.tile && k < i) {
                    1int
                } else {
                    0
                },
            )
        } else {
            (count, before)
        }
    }
}

/// All listed ids name shards.
pub open spec fn all_known(shards: Seq<ShardModel>, ids: Seq<LowShardId>) -> bool {
    forall|i: int| 0 <= i < ids.len() ==> (#[trigger] ids[i]).0 < shards.len()
}

/// `done` followed by the columns that the replicas from `i` on compute: the
/// replicas of one rectangle take the columns in tile order. There must be one
/// replica for each.
pub open spec fn replica_columns_from(
    shards: Seq<ShardModel>,
    ids: Seq<LowShardId>,
    partitions: u16,
    i: int,
    done: Seq<u32>,
) -> Result<Seq<u32>, LowLoweringError>
    decreases ids.len() - i,
{
    if i >= ids.len() {
        Ok(done)
    } else {
        let (count, before) = replicas_from(shards, ids, i, 0);
        if count != partitions {
            Err(LowLoweringError::InvalidOperatorPlan)
        } else {
            replica_columns_from(shards, ids, partitions, i + 1, done.push(before as u32))
        }
    }
}

/// The columns that replicas compute.
pub open spec fn replica_columns(
    shards: Seq<ShardModel>,
    ids: Seq<LowShardId>,
    partitions: u16,
) -> Result<Seq<u32>, LowLoweringError> {
    if !all_known(shards, ids) {
        Err(LowLoweringError::InvalidOperatorPlan)
    } else {
        replica_columns_from(shards, ids, partitions, 0, Seq::empty())
    }
}

proof fn lemma_replicas_bounds(shards: Seq<ShardModel>, ids: Seq<LowShardId>, i: int, k: int)
    requires
        0 <= k <= ids.len(),
    ensures
        0 <= replicas_from(shards, ids, i, k).1 <= replicas_from(shards, ids, i, k).0 <= ids.len()
            - k,
    decreases ids.len() - k,
{
    if k < ids.len() {
        lemma_replicas_bounds(shards, ids, i, k + 1);
    }
}

impl LoweringState {
    pub fn assign_replica_columns(&self, ids: &Vec<LowShardId>, partitions: u16) -> (r:
        LowLoweringResult<Vec<u32>>)
        ensures
            match r {
                Ok(columns) => replica_columns(self@.shards, ids@, partitions) == Ok::<
                    Seq<u32>,
                    LowLoweringError,
                >(columns@) && columns@.len() == ids@.len() && all_known(self@.shards, ids@),
                Err(e) => replica_columns(self@.shards, ids@, partitions) == Err::<
                    Seq<u32>,
                    LowLoweringError,
                >(e),
            },
    {
        broadcast use group_deep;

        let mut n: usize = 0;
        while n < ids.len()
            invariant
                n <= ids@.len(),
                forall|i: int| 0 <= i < n ==> (#[trigger] ids@[i]).0 < self@.shards.len(),
            decreases ids@.len() - n,
        {
            if (ids[n].0 as usize) >= self.shards.len() {
                assert(!(ids@[n as int].0 < self@.shards.len()));
                return Err(LowLoweringError::InvalidOperatorPlan);
            }
            n += 1;
        }
        let mut columns: Vec<u32> = Vec::new();
        let mut i: usize = 0;
        while i < ids.len()
            invariant
                i <= ids@.len(),
                columns@.len() == i,
                replica_columns_from(self@.shards, ids@, partitions, 0, Seq::empty())
                    == replica_columns_from(
                    self@.shards,
                    ids@,
                    partitions,
                    i as int,
                    columns@,
                ),
            decreases ids@.len() - i,
        {
            assert(ids@[i as int].0 < self@.shards.len());
            let this = &self.shards[ids[i].0 as usize];
            assert(this@ == self@.shards[ids@[i as int].0 as int]);
            let mut count: usize = 0;
            let mut before: usize = 0;
            let mut k: usize = ids.len();
            while k > 0
                invariant
                    k <= ids@.len(),
                    count <= ids@.len() - k,
                    before <= count,
                    (count as int, before as int) == replicas_from(
                        self@.shards,
                        ids@,
                        i as int,
                        k as int,
                    ),
                decreases k,
            {
                k -= 1;
                assert(ids@[k as int].0 < self@.shards.len());
                let other = &self.shards[ids[k].0 as usize];
                assert(other@ == self@.shards[ids@[k as int].0 as int]);
                if has_same_footprint(&this.extents, &other.extents) {
                    count += 1;
                    if other.tile < this.tile || (other.tile == this.tile && k < i) {
                        before += 1;
                    }
                }
            }
            if count != partitions as usize {
                return Err(LowLoweringError::InvalidOperatorPlan);
            }
            columns.push(before as u32);
            i += 1;
        }
        Ok(columns)
    }
}

/// Inner elements that one panel of a right operand holds.
pub open spec fn panel_block(order: ElementOrder) -> u32 {
    match order {
        ElementOrder::BlockMajor(BlockMajorOrder::Matrix { row_block, .. }) => row_block as u32,
        ElementOrder::BlockMajor(BlockMajorOrder::TransposedMatrix { row_block, .. }) =>
            row_block as u32,
        _ => AMP_INNER_BLOCK,
    }
}

pub fn panel_block_of(order: ElementOrder) -> (r: u32)
    ensures
        r == panel_block(order),
{
    match order {
        ElementOrder::BlockMajor(BlockMajorOrder::Matrix { row_block, .. }) => row_block as u32,
        ElementOrder::BlockMajor(BlockMajorOrder::TransposedMatrix { row_block, .. }) =>
            row_block as u32,
        _ => AMP_INNER_BLOCK,
    }
}

/// What all parts of a product that divides its inner axis have in common.
#[derive(Clone, Copy, Debug, PartialEq, Eq, Structural)]
pub struct ReductionPlan {
    pub source: Option<OperationId>,
    pub left: MidValueId,
    pub right: MidValueId,
    pub output: MidValueId,
    pub orientation: GemmOrientation,
    pub axes: ProductAxes,
    pub inner_block: u32,
    pub column_block: u32,
    pub panel_block: u32,
    /// The left operand is materialized in slices.
    pub slices: bool,
    /// Resident parts of the right operand are staged as remote ones.
    pub stage_local: bool,
    pub inner_partitions: u16,
    pub staging: ReductionStaging,
}

} // verus!
