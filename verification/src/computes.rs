//! Computations on resident blocks: which parts of its operands a kernel reads
//! on a tile, and which outputs take the storage of inputs.

use crate::blocks::{
    allocation_shards, append_block_run, block_of, built, narrow_block_view, narrowed_view,
    new_plain_run, obtained, one_view, plain_run, rebind, value_views, whole_block, BlockKernel,
    BlockKernelModel, BlockStep, BlockTarget, BuilderModel, ExpansionError, ExpansionResult,
    TileGraphBuilder, ViewList,
};
use crate::extents::{max, max_u32, min, min_u32};
use crate::kernels::broadcasts;
use crate::low::{
    LowShardId, ShardDefinition, ShardModel, ShardView, ViewModel, WorkProvenance,
};
use crate::mid::{KernelModel, KernelSpec, MidValueId, TileKernelSpec};
use crate::model::{Model, copy_all, deep, duplicate_all, group_deep};
use crate::products::{product_calls, ContractionAxes, Product};
use crate::tensor::{same_extents, LayoutError, Precision, ShardExtent};
use vstd::prelude::*;

verus! {

/// Ranges on axes.
pub type OperandWindow = Vec<(u16, u32, u32)>;

/// Which part of an operand a computation reads.
#[derive(Debug)]
pub enum OperandIndexing {
    /// The elements of a result, broadcast where needed.
    Elementwise { result: usize },
    /// Ranges of coordinates.
    Local(OperandWindow),
    /// Ranges relative to the fragment of the tile.
    Fragment(OperandWindow),
}

/// Abstract value of an [`OperandIndexing`].
pub enum IndexingModel {
    Elementwise { result: usize },
    Local(Seq<(u16, u32, u32)>),
    Fragment(Seq<(u16, u32, u32)>),
}

impl View for OperandIndexing {
    type V = IndexingModel;

    open spec fn view(&self) -> IndexingModel {
        match self {
            OperandIndexing::Elementwise { result } => IndexingModel::Elementwise {
                result: *result,
            },
            OperandIndexing::Local(window) => IndexingModel::Local(window@),
            OperandIndexing::Fragment(window) => IndexingModel::Fragment(window@),
        }
    }
}

/// A range list of one operand.
#[derive(Debug)]
pub struct Window {
    pub ranges: OperandWindow,
}

impl View for Window {
    type V = Seq<(u16, u32, u32)>;

    open spec fn view(&self) -> Seq<(u16, u32, u32)> {
        self.ranges@
    }
}

/// A computation on resident blocks.
#[derive(Debug)]
pub struct BlockCompute {
    pub provenance: WorkProvenance,
    pub kernel: TileKernelSpec,
    /// Axes of a product.
    pub axes: Option<ContractionAxes>,
    pub inputs: Vec<MidValueId>,
    pub results: Vec<MidValueId>,
    pub operands: Vec<OperandIndexing>,
    /// Results that take the storage of an input: result and input.
    pub output_aliases: Vec<(usize, usize)>,
    pub output_windows: Vec<Window>,
}

/// Abstract value of a [`BlockCompute`].
pub struct ComputeModel {
    pub provenance: WorkProvenance,
    pub kernel: KernelModel,
    pub axes: Option<ContractionAxes>,
    pub inputs: Seq<MidValueId>,
    pub results: Seq<MidValueId>,
    pub operands: Seq<IndexingModel>,
    pub output_aliases: Seq<(usize, usize)>,
    pub output_windows: Seq<Seq<(u16, u32, u32)>>,
}

impl View for BlockCompute {
    type V = ComputeModel;

    open spec fn view(&self) -> ComputeModel {
        ComputeModel {
            provenance: self.provenance,
            kernel: self.kernel@,
            axes: self.axes,
            inputs: self.inputs@,
            results: self.results@,
            operands: deep(self.operands@),
            output_aliases: self.output_aliases@,
            output_windows: deep(self.output_windows@),
        }
    }
}

// ---------------------------------------------------------------- allocations

/// `done` followed by the inputs that the aliases from `i` on name.
pub open spec fn alias_inputs_from(
    aliases: Seq<(usize, usize)>,
    inputs: Seq<MidValueId>,
    i: int,
    done: Seq<MidValueId>,
) -> Seq<MidValueId>
    decreases aliases.len() - i,
{
    if i >= aliases.len() {
        done
    } else {
        alias_inputs_from(
            aliases,
            inputs,
            i + 1,
            if aliases[i].1 < inputs.len() {
                done.push(inputs[aliases[i].1 as int])
            } else {
                done
            },
        )
    }
}

/// The inputs whose storage results take. They have to be whole allocations.
pub fn allocation_inputs(compute: &BlockCompute) -> (r: Vec<MidValueId>)
    ensures
        r@ == alias_inputs_from(compute@.output_aliases, compute@.inputs, 0, Seq::empty()),
{
    let mut found: Vec<MidValueId> = Vec::new();
    assert(found@ =~= Seq::<MidValueId>::empty());
    let mut i: usize = 0;
    while i < compute.output_aliases.len()
        invariant
            i <= compute.output_aliases@.len(),
            alias_inputs_from(compute@.output_aliases, compute@.inputs, 0, Seq::empty())
                == alias_inputs_from(
                compute@.output_aliases,
                compute@.inputs,
                i as int,
                found@,
            ),
        decreases compute.output_aliases@.len() - i,
    {
        let (_, input) = compute.output_aliases[i];
        if input < compute.inputs.len() {
            found.push(compute.inputs[input]);
        }
        i += 1;
    }
    found
}

// ---------------------------------------------------------------- tiles

/// The view's block is on the tile.
pub open spec fn view_on(shards: Seq<ShardModel>, view: ViewModel, tile: u16) -> bool {
    view.shard.0 < shards.len() && shards[view.shard.0 as int].tile == tile
}

/// `done` followed by the views from `i` on that are on the tile.
pub open spec fn tile_views_from(
    shards: Seq<ShardModel>,
    views: Seq<ViewModel>,
    tile: u16,
    i: int,
    done: Seq<ViewModel>,
) -> Seq<ViewModel>
    decreases views.len() - i,
{
    if i >= views.len() {
        done
    } else {
        tile_views_from(
            shards,
            views,
            tile,
            i + 1,
            if view_on(shards, views[i], tile) {
                done.push(views[i])
            } else {
                done
            },
        )
    }
}

/// The views on a tile, in order.
pub open spec fn tile_views(shards: Seq<ShardModel>, views: Seq<ViewModel>, tile: u16) -> Seq<
    ViewModel,
> {
    tile_views_from(shards, views, tile, 0, Seq::empty())
}

/// `done` followed by the parts of the values from `i` on.
pub open spec fn all_views_from(
    s: BuilderModel,
    values: Seq<MidValueId>,
    i: int,
    done: Seq<Seq<ViewModel>>,
) -> Result<Seq<Seq<ViewModel>>, ExpansionError>
    decreases values.len() - i,
{
    if i >= values.len() {
        Ok(done)
    } else {
        match value_views(s, values[i]) {
            Err(e) => Err(e),
            Ok(views) => all_views_from(s, values, i + 1, done.push(views)),
        }
    }
}

/// Every result has as many parts on every tile as the first one.
pub open spec fn alike(shards: Seq<ShardModel>, results: Seq<Seq<ViewModel>>, tile_count: u16) -> bool {
    forall|r: int, t: int|
        0 <= r < results.len() && 0 <= t < tile_count ==> (#[trigger] tile_views(
            shards,
            results[r],
            t as u16,
        )).len() == tile_views(shards, results[0], t as u16).len()
}

/// How many of the blocks before `k` are on the tile.
pub open spec fn ordinal_of(shards: Seq<ShardModel>, blocks: Seq<LowShardId>, tile: u16, k: int) -> nat
    decreases k,
{
    if k <= 0 {
        0
    } else {
        ordinal_of(shards, blocks, tile, k - 1) + if blocks[k - 1].0 < shards.len()
            && shards[blocks[k - 1].0 as int].tile == tile {
            1nat
        } else {
            0
        }
    }
}

/// Some axis has no elements.
pub open spec fn is_vacant(extents: Seq<ShardExtent>) -> bool {
    exists|i: int|
        0 <= i < extents.len() && (#[trigger] extents[i]).physical_end == extents[i].start
}

/// Some view has no elements.
pub open spec fn some_vacant(views: Seq<ViewModel>) -> bool {
    exists|i: int| 0 <= i < views.len() && is_vacant((#[trigger] views[i]).extents)
}

// ---------------------------------------------------------------- operands

/// The only element of an axis stands for all elements of the result.
pub open spec fn is_broadcast(shape: Seq<u32>, output: Seq<u32>, axis: int) -> bool {
    shape[axis] == 1 && output[axis + output.len() - shape.len()] != 1
}

/// One axis can provide the elements of the result.
pub open spec fn provides(
    extent: ShardExtent,
    shape: Seq<u32>,
    output: ShardModel,
    axis: int,
) -> bool {
    let position = axis + output.tensor_type.shape.len() - shape.len();
    if is_broadcast(shape, output.tensor_type.shape, axis) {
        extent.start == 0 && extent.logical_end != 0
    } else {
        position < output.extents.len() && extent.start <= output.extents[position].start
            && extent.logical_end >= output.extents[position].logical_end
    }
}

/// The part of an axis that provides the elements of the result. Where it is
/// all of the axis, its padding is kept.
pub open spec fn provided(
    extent: ShardExtent,
    shape: Seq<u32>,
    output: ShardModel,
    axis: int,
) -> ShardExtent {
    if is_broadcast(shape, output.tensor_type.shape, axis) {
        ShardExtent { logical_end: 1, physical_end: 1, ..extent }
    } else {
        let needed = output.extents[axis + output.tensor_type.shape.len() - shape.len()];
        if extent.start == needed.start && extent.logical_end == needed.logical_end {
            extent
        } else {
            ShardExtent {
                start: needed.start,
                logical_end: needed.logical_end,
                physical_end: needed.logical_end,
                ..extent
            }
        }
    }
}

/// The part of a view that provides the elements of a block.
pub open spec fn elementwise_view(source: ViewModel, shape: Seq<u32>, output: ShardModel) -> Option<
    ViewModel,
> {
    if broadcasts(shape, output.tensor_type.shape) && source.extents.len() == shape.len()
        && forall|axis: int|
        0 <= axis < shape.len() ==> provides(
            #[trigger] source.extents[axis],
            shape,
            output,
            axis,
        ) {
        Some(
            ViewModel {
                extents: Seq::new(
                    shape.len(),
                    |axis: int| provided(source.extents[axis], shape, output, axis),
                ),
                ..source
            },
        )
    } else {
        None
    }
}

/// The first view from `i` on that provides the elements of a block.
pub open spec fn elementwise_from(
    views: Seq<ViewModel>,
    shape: Seq<u32>,
    output: ShardModel,
    i: int,
) -> Option<ViewModel>
    decreases views.len() - i,
{
    if i >= views.len() {
        None
    } else {
        match elementwise_view(views[i], shape, output) {
            Some(view) => Some(view),
            None => elementwise_from(views, shape, output, i + 1),
        }
    }
}

/// The ranges with axes as positions.
pub open spec fn positions(window: Seq<(u16, u32, u32)>) -> Seq<(usize, u32, u32)> {
    Seq::new(window.len(), |i: int| (window[i].0 as usize, window[i].1, window[i].2))
}

/// Sum up to the largest number.
pub open spec fn clipped_sum(a: u32, b: u32) -> u32 {
    if a + b > u32::MAX {
        u32::MAX
    } else {
        (a + b) as u32
    }
}

/// A range relative to the start of an axis, as far as the axis goes.
pub open spec fn relative(extent: ShardExtent, start: u32, end: u32) -> ShardExtent {
    let first = min(clipped_sum(extent.start, start), extent.physical_end);
    let last = max(min(clipped_sum(extent.start, end), extent.physical_end), first);
    ShardExtent {
        axis: extent.axis,
        start: first,
        logical_end: max(min(extent.logical_end, last), first),
        physical_end: last,
    }
}

/// The extents after the relative ranges from `i` on.
pub open spec fn fragment_from(
    extents: Seq<ShardExtent>,
    window: Seq<(u16, u32, u32)>,
    i: int,
) -> Result<Seq<ShardExtent>, ExpansionError>
    decreases window.len() - i,
{
    if i >= window.len() {
        Ok(extents)
    } else {
        let (axis, start, end) = window[i];
        if axis >= extents.len() {
            Err(ExpansionError::InvalidOperatorPlan)
        } else {
            fragment_from(
                extents.update(axis as int, relative(extents[axis as int], start, end)),
                window,
                i + 1,
            )
        }
    }
}

/// A part of a view, by ranges relative to it.
pub open spec fn fragment_window(view: ViewModel, window: Seq<(u16, u32, u32)>) -> Result<
    ViewModel,
    ExpansionError,
> {
    match fragment_from(view.extents, window, 0) {
        Err(e) => Err(e),
        Ok(extents) => Ok(ViewModel { extents, ..view }),
    }
}

/// The part of the resident views of an operand that a kernel reads for the
/// block with the given ordinal.
pub open spec fn operand_view(
    s: BuilderModel,
    indexing: IndexingModel,
    value: MidValueId,
    resident: Seq<ViewModel>,
    results: Seq<LowShardId>,
    fragments: nat,
    ordinal: nat,
) -> Result<ViewModel, ExpansionError> {
    match indexing {
        IndexingModel::Elementwise { result } => if result >= results.len() {
            Err(ExpansionError::ResultArity)
        } else if value.0 >= s.types.len() {
            Err(ExpansionError::InvalidOperatorPlan)
        } else {
            match block_of(s.shards, results[result as int]) {
                Err(e) => Err(e),
                Ok(output) => match elementwise_from(
                    resident,
                    s.types[value.0 as int].shape,
                    output,
                    0,
                ) {
                    Some(view) => Ok(view),
                    None => Err(ExpansionError::InvalidOperatorPlan),
                },
            }
        },
        IndexingModel::Local(window) => match resident_at(resident, fragments, ordinal) {
            Err(e) => Err(e),
            Ok(view) => narrowed_view(view, positions(window)),
        },
        IndexingModel::Fragment(window) => match resident_at(resident, fragments, ordinal) {
            Err(e) => Err(e),
            Ok(view) => fragment_window(view, window),
        },
    }
}

/// The part of an operand that belongs to a block: the only one, or the one with
/// the same ordinal.
pub open spec fn resident_at(resident: Seq<ViewModel>, fragments: nat, ordinal: nat) -> Result<
    ViewModel,
    ExpansionError,
> {
    let index = if resident.len() == 1 {
        0
    } else {
        ordinal
    };
    if (resident.len() != 1 && resident.len() != fragments) || index >= resident.len() {
        Err(ExpansionError::InvalidOperatorPlan)
    } else {
        Ok(resident[index as int])
    }
}

/// `done` followed by the operands from `i` on.
pub open spec fn operand_views_from(
    s: BuilderModel,
    c: ComputeModel,
    inputs: Seq<Seq<ViewModel>>,
    results: Seq<LowShardId>,
    tile: u16,
    fragments: nat,
    ordinal: nat,
    i: int,
    done: Seq<ViewModel>,
) -> Result<Seq<ViewModel>, ExpansionError>
    decreases c.operands.len() - i,
{
    if i >= c.operands.len() || i >= c.inputs.len() {
        Ok(done)
    } else {
        match operand_view(
            s,
            c.operands[i],
            c.inputs[i],
            tile_views(s.shards, inputs[i], tile),
            results,
            fragments,
            ordinal,
        ) {
            Err(e) => Err(e),
            Ok(view) => operand_views_from(
                s,
                c,
                inputs,
                results,
                tile,
                fragments,
                ordinal,
                i + 1,
                done.push(view),
            ),
        }
    }
}

/// `done` followed by the blocks of the results from `r` on.
pub open spec fn result_blocks_from(
    shards: Seq<ShardModel>,
    results: Seq<Seq<ViewModel>>,
    tile: u16,
    ordinal: nat,
    r: int,
    done: Seq<LowShardId>,
) -> Result<Seq<LowShardId>, ExpansionError>
    decreases results.len() - r,
{
    if r >= results.len() {
        Ok(done)
    } else {
        let resident = tile_views(shards, results[r], tile);
        if ordinal >= resident.len() {
            Err(ExpansionError::InvalidOperatorPlan)
        } else {
            result_blocks_from(
                shards,
                results,
                tile,
                ordinal,
                r + 1,
                done.push(resident[ordinal as int].shard),
            )
        }
    }
}

/// `done` followed by the parts of the result blocks from `r` on that are
/// written.
pub open spec fn result_views_from(
    shards: Seq<ShardModel>,
    results: Seq<LowShardId>,
    windows: Seq<Seq<(u16, u32, u32)>>,
    r: int,
    done: Seq<ViewModel>,
) -> Result<Seq<ViewModel>, ExpansionError>
    decreases results.len() - r,
{
    if r >= results.len() {
        Ok(done)
    } else {
        match whole_block(shards, results[r]) {
            Err(e) => Err(e),
            Ok(view) => match (if r < windows.len() {
                fragment_window(view, windows[r])
            } else {
                Ok(view)
            }) {
                Err(e) => Err(e),
                Ok(part) => result_views_from(shards, results, windows, r + 1, done.push(part)),
            },
        }
    }
}

// ---------------------------------------------------------------- aliases

/// The first resident part from `i` on that is a whole block with the given
/// rectangle.
pub open spec fn same_block_from(
    shards: Seq<ShardModel>,
    resident: Seq<ViewModel>,
    extents: Seq<ShardExtent>,
    i: int,
) -> Option<LowShardId>
    decreases resident.len() - i,
{
    if i >= resident.len() {
        None
    } else if resident[i].extents == extents && resident[i].shard.0 < shards.len()
        && resident[i].extents == shards[resident[i].shard.0 as int].extents {
        Some(resident[i].shard)
    } else {
        same_block_from(shards, resident, extents, i + 1)
    }
}

/// Lets the results take the storage of inputs, by the aliases from `i` on.
pub open spec fn bind_aliases_from(
    s: BuilderModel,
    results: Seq<LowShardId>,
    aliases: Seq<(usize, usize)>,
    inputs: Seq<Seq<ViewModel>>,
    offset: i32,
    i: int,
) -> BlockStep
    decreases aliases.len() - i,
{
    if i >= aliases.len() {
        Ok(s)
    } else {
        let (result, input) = aliases[i];
        if result >= results.len() {
            Err(ExpansionError::ResultArity)
        } else if input >= inputs.len() {
            Err(ExpansionError::InvalidOperatorPlan)
        } else {
            match block_of(s.shards, results[result as int]) {
                Err(e) => Err(e),
                Ok(block) => match same_block_from(
                    s.shards,
                    tile_views(s.shards, inputs[input as int], block.tile),
                    block.extents,
                    0,
                ) {
                    None => Err(ExpansionError::InvalidOperatorPlan),
                    Some(source) => match rebind(
                        s,
                        results[result as int],
                        if offset == 0 {
                            ShardDefinition::WritableAlias(source)
                        } else {
                            ShardDefinition::ShiftedAlias { source, offset }
                        },
                    ) {
                        Err(e) => Err(e),
                        Ok(next) => bind_aliases_from(
                            next,
                            results,
                            aliases,
                            inputs,
                            offset,
                            i + 1,
                        ),
                    },
                },
            }
        }
    }
}

// ---------------------------------------------------------------- casts

/// Widths of a rectangle, if they are ordered.
pub open spec fn widths(extents: Seq<ShardExtent>) -> Option<Seq<u32>> {
    if forall|i: int|
        0 <= i < extents.len() ==> (#[trigger] extents[i]).start <= extents[i].physical_end {
        Some(
            Seq::new(
                extents.len(),
                |i: int| (extents[i].physical_end - extents[i].start) as u32,
            ),
        )
    } else {
        None
    }
}

/// A chunk of a view along an axis.
pub open spec fn chunk_of_view(view: ViewModel, axis: int, start: u32, end: u32) -> Option<
    ViewModel,
> {
    if axis >= view.extents.len() || view.extents[axis].start + start > u32::MAX
        || view.extents[axis].start + end > u32::MAX {
        None
    } else {
        let extent = view.extents[axis];
        let first = (extent.start + start) as u32;
        let last = (extent.start + end) as u32;
        Some(
            ViewModel {
                extents: view.extents.update(
                    axis,
                    ShardExtent {
                        axis: extent.axis,
                        start: first,
                        logical_end: max(min(extent.logical_end, last), first),
                        physical_end: last,
                    },
                ),
                ..view
            },
        )
    }
}

/// Adds the chunks of a cast from `i` on.
pub open spec fn append_chunks_from(
    s: BuilderModel,
    tile: u16,
    provenance: WorkProvenance,
    kernel: KernelModel,
    input: ViewModel,
    output: ViewModel,
    axis: int,
    ranges: Seq<(u32, u32)>,
    i: int,
) -> BlockStep
    decreases ranges.len() - i,
{
    if i >= ranges.len() {
        Ok(s)
    } else {
        match (
            chunk_of_view(input, axis, ranges[i].0, ranges[i].1),
            chunk_of_view(output, axis, ranges[i].0, ranges[i].1),
        ) {
            (Some(from), Some(to)) => match append_block_run(
                s,
                tile,
                plain_run(provenance, BlockKernelModel::Tile(kernel), seq![from], seq![to]),
            ) {
                Err(e) => Err(e),
                Ok(next) => append_chunks_from(
                    next,
                    tile,
                    provenance,
                    kernel,
                    input,
                    output,
                    axis,
                    ranges,
                    i + 1,
                ),
            },
            _ => Err(ExpansionError::InvalidOperatorPlan),
        }
    }
}

/// Adds a cast that consumes its input chunk by chunk.
pub open spec fn append_shifted_cast<M: BlockTarget>(
    target: &M,
    s: BuilderModel,
    tile: u16,
    provenance: WorkProvenance,
    kernel: KernelModel,
    input: ViewModel,
    output: ViewModel,
) -> BlockStep {
    match (widths(input.extents), block_of(s.shards, output.shard)) {
        (Some(dimensions), Ok(block)) => match target.spec_cast_chunks(
            block.tensor_type.format.layout.order,
            dimensions,
        ) {
            None => Err(ExpansionError::InvalidOperatorPlan),
            Some((axis, ranges)) => append_chunks_from(
                s,
                tile,
                provenance,
                kernel,
                input,
                output,
                axis as int,
                ranges,
                0,
            ),
        },
        _ => Err(ExpansionError::InvalidOperatorPlan),
    }
}

// ---------------------------------------------------------------- computations

/// A cast to fewer bytes onto the storage of its input.
pub open spec fn donates(c: ComputeModel) -> bool {
    &&& c.kernel matches KernelSpec::Cast { from, to } && from == Precision::F16 && to is F8F143
    &&& c.output_aliases == seq![(0usize, 0usize)]
}

/// The kernel of a product with the sizes of its operands.
pub open spec fn sized_compute(c: ComputeModel, inputs: Seq<ViewModel>, results: Seq<ViewModel>) -> Result<
    KernelModel,
    ExpansionError,
> {
    match (c.kernel, c.axes) {
        (
            KernelSpec::Gemm { multiply, accumulate, mode, weights, .. },
            Some(axes),
        ) => if inputs.len() == 0 || results.len() == 0 {
            Err(ExpansionError::InvalidOperatorPlan)
        } else {
            match (
                axes.left_inner.spec_resolve(inputs[0].extents.len()),
                axes.output_column.spec_resolve(results[0].extents.len()),
            ) {
                (Some(inner), Some(column)) => {
                    let a = inputs[0].extents[inner];
                    let b = results[0].extents[column];
                    if a.physical_end < a.start || b.physical_end < b.start {
                        Err(ExpansionError::InvalidOperatorPlan)
                    } else {
                        Ok(
                            KernelSpec::Gemm {
                                multiply,
                                accumulate,
                                mode,
                                weights,
                                inner_block: (a.physical_end - a.start) as u32,
                                output_columns: (b.physical_end - b.start) as u32,
                            },
                        )
                    }
                },
                _ => Err(ExpansionError::Layout(LayoutError::RankMismatch)),
            }
        },
        _ => Ok(c.kernel),
    }
}

/// Adds the runs of a computation once its operands are known.
pub open spec fn append_compute<M: BlockTarget>(
    target: &M,
    s: BuilderModel,
    c: ComputeModel,
    tile: u16,
    inputs: Seq<ViewModel>,
    results: Seq<ViewModel>,
) -> BlockStep {
    if some_vacant(inputs) || some_vacant(results) {
        Ok(s)
    } else if donates(c) {
        if inputs.len() != 1 {
            Err(ExpansionError::InvalidOperatorPlan)
        } else if results.len() != 1 {
            Err(ExpansionError::ResultArity)
        } else {
            append_shifted_cast(
                target,
                s,
                tile,
                c.provenance,
                c.kernel,
                inputs[0],
                results[0],
            )
        }
    } else {
        match sized_compute(c, inputs, results) {
            Err(e) => Err(e),
            Ok(kernel) => append_block_run(
                s,
                tile,
                plain_run(c.provenance, BlockKernelModel::Tile(kernel), inputs, results),
            ),
        }
    }
}

/// Adds the computation of one block.
pub open spec fn compute_block<M: BlockTarget>(
    target: &M,
    s: BuilderModel,
    c: ComputeModel,
    inputs: Seq<Seq<ViewModel>>,
    results: Seq<Seq<ViewModel>>,
    tile: u16,
    ordinal: nat,
) -> BlockStep {
    match result_blocks_from(s.shards, results, tile, ordinal, 0, Seq::empty()) {
        Err(e) => Err(e),
        Ok(blocks) => match bind_aliases_from(
            s,
            blocks,
            c.output_aliases,
            inputs,
            if donates(c) {
                (-target.spec_cast_prefix_bytes()) as i32
            } else {
                0
            },
            0,
        ) {
            Err(e) => Err(e),
            Ok(bound) => match operand_views_from(
                bound,
                c,
                inputs,
                blocks,
                tile,
                tile_views(bound.shards, results[0], tile).len(),
                ordinal,
                0,
                Seq::empty(),
            ) {
                Err(e) => Err(e),
                Ok(views) => match result_views_from(
                    bound.shards,
                    blocks,
                    c.output_windows,
                    0,
                    Seq::empty(),
                ) {
                    Err(e) => Err(e),
                    Ok(written) => append_compute(target, bound, c, tile, views, written),
                },
            },
        },
    }
}

/// Adds the computation of the blocks from `k` on. Blocks without elements are
/// passed over.
pub open spec fn compute_blocks_from<M: BlockTarget>(
    target: &M,
    s: BuilderModel,
    c: ComputeModel,
    inputs: Seq<Seq<ViewModel>>,
    results: Seq<Seq<ViewModel>>,
    blocks: Seq<LowShardId>,
    k: int,
) -> BlockStep
    decreases blocks.len() - k,
{
    if k >= blocks.len() {
        Ok(s)
    } else {
        match block_of(s.shards, blocks[k]) {
            Err(e) => Err(e),
            Ok(block) => if is_vacant(block.extents) {
                compute_blocks_from(target, s, c, inputs, results, blocks, k + 1)
            } else {
                match compute_block(
                    target,
                    s,
                    c,
                    inputs,
                    results,
                    block.tile,
                    ordinal_of(s.shards, blocks, block.tile, k),
                ) {
                    Err(e) => Err(e),
                    Ok(next) => compute_blocks_from(
                        target,
                        next,
                        c,
                        inputs,
                        results,
                        blocks,
                        k + 1,
                    ),
                }
            },
        }
    }
}

/// Adds a computation: one run for each block of its first result.
pub open spec fn build_compute<M: BlockTarget>(target: &M, s: BuilderModel, c: ComputeModel) -> BlockStep {
    if c.results.len() == 0 {
        Err(ExpansionError::ResultArity)
    } else {
        match allocation_shards(s, c.results[0]) {
            Err(e) => Err(e),
            Ok(blocks) => match all_views_from(s, c.inputs, 0, Seq::empty()) {
                Err(e) => Err(e),
                Ok(inputs) => match all_views_from(s, c.results, 0, Seq::empty()) {
                    Err(e) => Err(e),
                    Ok(results) => if !alike(s.shards, results, s.tile_count) {
                        Err(ExpansionError::ResultArity)
                    } else {
                        compute_blocks_from(target, s, c, inputs, results, blocks, 0)
                    },
                },
            },
        }
    }
}

// ---------------------------------------------------------------- products

/// `done` followed by the operand windows on a tile from `i` on.
pub open spec fn product_operands_from(
    shards: Seq<ShardModel>,
    inputs: Seq<Seq<ViewModel>>,
    windows: Seq<Seq<(u16, u32, u32)>>,
    tile: u16,
    i: int,
    done: Seq<ViewModel>,
) -> Result<Seq<ViewModel>, ExpansionError>
    decreases inputs.len() - i,
{
    if i >= inputs.len() || i >= windows.len() {
        Ok(done)
    } else {
        let resident = tile_views(shards, inputs[i], tile);
        if resident.len() == 0 {
            Err(ExpansionError::InvalidOperatorPlan)
        } else {
            match narrowed_view(resident[0], positions(windows[i])) {
                Err(e) => Err(e),
                Ok(view) => product_operands_from(
                    shards,
                    inputs,
                    windows,
                    tile,
                    i + 1,
                    done.push(view),
                ),
            }
        }
    }
}

/// A product of distributed values.
pub struct ProductModel {
    pub provenance: WorkProvenance,
    pub product: Product,
    pub inputs: Seq<MidValueId>,
    pub results: Seq<MidValueId>,
    pub windows: Seq<Seq<(u16, u32, u32)>>,
    pub output_aliases: Seq<(usize, usize)>,
}

/// Adds the products of the blocks from `k` on.
pub open spec fn product_blocks_from<M: BlockTarget>(
    target: &M,
    s: BuilderModel,
    c: ProductModel,
    inputs: Seq<Seq<ViewModel>>,
    blocks: Seq<LowShardId>,
    k: int,
) -> BlockStep
    decreases blocks.len() - k,
{
    if k >= blocks.len() {
        Ok(s)
    } else {
        match block_of(s.shards, blocks[k]) {
            Err(e) => Err(e),
            Ok(block) => if is_vacant(block.extents) {
                product_blocks_from(target, s, c, inputs, blocks, k + 1)
            } else {
                match bind_aliases_from(s, seq![blocks[k]], c.output_aliases, inputs, 0, 0) {
                    Err(e) => Err(e),
                    Ok(bound) => match product_operands_from(
                        bound.shards,
                        inputs,
                        c.windows,
                        block.tile,
                        0,
                        Seq::empty(),
                    ) {
                        Err(e) => Err(e),
                        Ok(operands) => match product_calls(
                            target,
                            bound,
                            c.provenance,
                            block.tile,
                            operands,
                            blocks[k],
                            c.product,
                        ) {
                            Err(e) => Err(e),
                            Ok(next) => product_blocks_from(
                                target,
                                next,
                                c,
                                inputs,
                                blocks,
                                k + 1,
                            ),
                        },
                    },
                }
            },
        }
    }
}

/// Adds a product: calls for each block of its result.
pub open spec fn build_product<M: BlockTarget>(target: &M, s: BuilderModel, c: ProductModel) -> BlockStep {
    if c.results.len() != 1 {
        Err(ExpansionError::ResultArity)
    } else {
        match allocation_shards(s, c.results[0]) {
            Err(e) => Err(e),
            Ok(blocks) => match all_views_from(s, c.inputs, 0, Seq::empty()) {
                Err(e) => Err(e),
                Ok(inputs) => product_blocks_from(target, s, c, inputs, blocks, 0),
            },
        }
    }
}

// ---------------------------------------------------------------- carrying out

fn has_no_elements(extents: &Vec<ShardExtent>) -> (r: bool)
    ensures
        r == is_vacant(extents@),
{
    let mut i: usize = 0;
    while i < extents.len()
        invariant
            i <= extents@.len(),
            forall|k: int|
                0 <= k < i ==> (#[trigger] extents@[k]).physical_end != extents@[k].start,
        decreases extents@.len() - i,
    {
        if extents[i].physical_end == extents[i].start {
            assert(extents@[i as int].physical_end == extents@[i as int].start);
            return true;
        }
        i += 1;
    }
    false
}

fn some_has_no_elements(views: &Vec<ShardView>) -> (r: bool)
    ensures
        r == some_vacant(deep(views@)),
{
    broadcast use group_deep;

    let ghost model = deep(views@);
    let mut i: usize = 0;
    while i < views.len()
        invariant
            i <= views@.len(),
            forall|k: int| 0 <= k < i ==> !is_vacant((#[trigger] model[k]).extents),
        decreases views@.len() - i,
    {
        assert(model[i as int] == views@[i as int]@);
        if has_no_elements(&views[i].extents) {
            return true;
        }
        i += 1;
    }
    false
}

fn is_broadcast_to(shape: &[u32], output: &[u32]) -> (r: bool)
    ensures
        r == broadcasts(shape@, output@),
{
    if shape.len() > output.len() {
        return false;
    }
    let shift: usize = output.len() - shape.len();
    let mut i: usize = 0;
    while i < shape.len()
        invariant
            i <= shape@.len(),
            forall|k: int|
                0 <= k < i ==> #[trigger] shape@[k] == 1 || shape@[k] == output@[k + output@.len()
                    - shape@.len()],
        decreases shape@.len() - i,
    {
        if shape[i] != 1 && shape[i] != output[i + shift] {
            assert(shape@[i as int] != 1);
            return false;
        }
        i += 1;
    }
    true
}

/// The part of a view that provides the elements of a block.
pub fn find_elementwise_view(source: &ShardView, shape: &[u32], output: &crate::low::LowShard) -> (r:
    Option<ShardView>)
    ensures
        match r {
            Some(view) => elementwise_view(source@, shape@, output@) == Some(view@),
            None => elementwise_view(source@, shape@, output@) is None,
        },
{
    let dimensions = &output.tensor_type.shape.0;
    if !is_broadcast_to(shape, dimensions.as_slice()) || source.extents.len() != shape.len() {
        return None;
    }
    let shift: usize = dimensions.len() - shape.len();
    let mut extents: Vec<ShardExtent> = Vec::new();
    let mut axis: usize = 0;
    while axis < shape.len()
        invariant
            axis <= shape@.len(),
            extents@.len() == axis,
            forall|k: int|
                0 <= k < axis ==> provides(#[trigger] source.extents@[k], shape@, output@, k),
            forall|k: int|
                0 <= k < axis ==> extents@[k] == provided(
                    source.extents@[k],
                    shape@,
                    output@,
                    k,
                ),
        decreases shape@.len() - axis,
    {
        let extent: ShardExtent = source.extents[axis];
        if shape[axis] == 1 && dimensions[axis + shift] != 1 {
            if extent.start != 0 || extent.logical_end == 0 {
                assert(!provides(source.extents@[axis as int], shape@, output@, axis as int));
                return None;
            }
            extents.push(
                ShardExtent {
                    axis: extent.axis,
                    start: extent.start,
                    logical_end: 1,
                    physical_end: 1,
                },
            );
        } else {
            if axis + shift >= output.extents.len() {
                assert(!provides(source.extents@[axis as int], shape@, output@, axis as int));
                return None;
            }
            let needed: ShardExtent = output.extents[axis + shift];
            if extent.start > needed.start || extent.logical_end < needed.logical_end {
                assert(!provides(source.extents@[axis as int], shape@, output@, axis as int));
                return None;
            }
            if extent.start == needed.start && extent.logical_end == needed.logical_end {
                extents.push(extent);
            } else {
                extents.push(
                    ShardExtent {
                        axis: extent.axis,
                        start: needed.start,
                        logical_end: needed.logical_end,
                        physical_end: needed.logical_end,
                    },
                );
            }
        }
        assert(provides(source.extents@[axis as int], shape@, output@, axis as int));
        axis += 1;
    }
    let view = ShardView { shard: source.shard, extents };
    assert(view@.extents =~= elementwise_view(source@, shape@, output@)->Some_0.extents);
    Some(view)
}

fn axis_positions(window: &Vec<(u16, u32, u32)>) -> (r: Vec<(usize, u32, u32)>)
    ensures
        r@ == positions(window@),
{
    let mut ranges: Vec<(usize, u32, u32)> = Vec::new();
    let mut i: usize = 0;
    while i < window.len()
        invariant
            i <= window@.len(),
            ranges@.len() == i,
            forall|k: int| 0 <= k < i ==> ranges@[k] == positions(window@)[k],
        decreases window@.len() - i,
    {
        let (axis, start, end) = window[i];
        ranges.push((axis as usize, start, end));
        i += 1;
    }
    assert(ranges@ =~= positions(window@));
    ranges
}

/// A part of a view, by ranges of coordinates.
pub fn window_of(view: &ShardView, window: &Vec<(u16, u32, u32)>) -> (r: ExpansionResult<ShardView>)
    ensures
        obtained(r, narrowed_view(view@, positions(window@))),
{
    let ranges = axis_positions(window);
    narrow_block_view(view, ranges.as_slice())
}

/// A part of a view, by ranges relative to it.
pub fn fragment_of(view: &ShardView, window: &Vec<(u16, u32, u32)>) -> (r: ExpansionResult<
    ShardView,
>)
    ensures
        obtained(r, fragment_window(view@, window@)),
{
    let mut extents = copy_all(view.extents.as_slice());
    let mut i: usize = 0;
    while i < window.len()
        invariant
            i <= window@.len(),
            fragment_from(view@.extents, window@, 0) == fragment_from(
                extents@,
                window@,
                i as int,
            ),
        decreases window@.len() - i,
    {
        let (axis, start, end) = window[i];
        if axis as usize >= extents.len() {
            return Err(ExpansionError::InvalidOperatorPlan);
        }
        let extent: ShardExtent = extents[axis as usize];
        let first: u32 = min_u32(extent.start.saturating_add(start), extent.physical_end);
        let last: u32 = max_u32(
            min_u32(extent.start.saturating_add(end), extent.physical_end),
            first,
        );
        extents.set(
            axis as usize,
            ShardExtent {
                axis: extent.axis,
                start: first,
                logical_end: max_u32(min_u32(extent.logical_end, last), first),
                physical_end: last,
            },
        );
        i += 1;
    }
    Ok(ShardView { shard: view.shard, extents })
}

fn find_widths(extents: &Vec<ShardExtent>) -> (r: Option<Vec<u32>>)
    ensures
        match r {
            Some(found) => widths(extents@) == Some(found@),
            None => widths(extents@) is None,
        },
{
    let mut found: Vec<u32> = Vec::new();
    let mut i: usize = 0;
    while i < extents.len()
        invariant
            i <= extents@.len(),
            found@.len() == i,
            forall|k: int|
                0 <= k < i ==> (#[trigger] extents@[k]).start <= extents@[k].physical_end
                    && found@[k] == extents@[k].physical_end - extents@[k].start,
        decreases extents@.len() - i,
    {
        let extent: ShardExtent = extents[i];
        if extent.physical_end < extent.start {
            assert(extents@[i as int].start > extents@[i as int].physical_end);
            return None;
        }
        found.push(extent.physical_end - extent.start);
        i += 1;
    }
    assert(found@ =~= widths(extents@)->Some_0);
    Some(found)
}

fn find_chunk(view: &ShardView, axis: usize, start: u32, end: u32) -> (r: Option<ShardView>)
    ensures
        match r {
            Some(chunk) => chunk_of_view(view@, axis as int, start, end) == Some(chunk@),
            None => chunk_of_view(view@, axis as int, start, end) is None,
        },
{
    if axis >= view.extents.len() {
        return None;
    }
    let extent: ShardExtent = view.extents[axis];
    match (extent.start.checked_add(start), extent.start.checked_add(end)) {
        (Some(first), Some(last)) => {
            let mut extents = copy_all(view.extents.as_slice());
            extents.set(
                axis,
                ShardExtent {
                    axis: extent.axis,
                    start: first,
                    logical_end: max_u32(min_u32(extent.logical_end, last), first),
                    physical_end: last,
                },
            );
            Some(ShardView { shard: view.shard, extents })
        },
        _ => None,
    }
}

fn is_donating(compute: &BlockCompute) -> (r: bool)
    ensures
        r == donates(compute@),
{
    let one = compute.output_aliases.len() == 1 && compute.output_aliases[0].0 == 0
        && compute.output_aliases[0].1 == 0;
    assert(one == (compute@.output_aliases == seq![(0usize, 0usize)])) by {
        if one {
            assert(compute@.output_aliases =~= seq![(0usize, 0usize)]);
        }
    }
    match &compute.kernel {
        KernelSpec::Cast { from, to } => {
            let narrow = match to {
                Precision::F8F143 { .. } => true,
                _ => false,
            };
            one && *from == Precision::F16 && narrow
        },
        _ => false,
    }
}

fn size_compute(compute: &BlockCompute, inputs: &Vec<ShardView>, results: &Vec<ShardView>) -> (r:
    ExpansionResult<TileKernelSpec>)
    ensures
        obtained(r, sized_compute(compute@, deep(inputs@), deep(results@))),
{
    broadcast use group_deep;

    match (&compute.kernel, compute.axes) {
        (KernelSpec::Gemm { multiply, accumulate, mode, weights, .. }, Some(axes)) => {
            if inputs.len() == 0 || results.len() == 0 {
                return Err(ExpansionError::InvalidOperatorPlan);
            }
            assert(deep(inputs@)[0] == inputs@[0]@);
            assert(deep(results@)[0] == results@[0]@);
            match (
                axes.left_inner.resolve(inputs[0].extents.len()),
                axes.output_column.resolve(results[0].extents.len()),
            ) {
                (Some(inner), Some(column)) => {
                    let a: ShardExtent = inputs[0].extents[inner];
                    let b: ShardExtent = results[0].extents[column];
                    if a.physical_end < a.start || b.physical_end < b.start {
                        return Err(ExpansionError::InvalidOperatorPlan);
                    }
                    Ok(
                        KernelSpec::Gemm {
                            multiply: *multiply,
                            accumulate: *accumulate,
                            mode: *mode,
                            weights: *weights,
                            inner_block: a.physical_end - a.start,
                            output_columns: b.physical_end - b.start,
                        },
                    )
                },
                _ => Err(ExpansionError::Layout(LayoutError::RankMismatch)),
            }
        },
        _ => Ok(compute.kernel.duplicate()),
    }
}

impl TileGraphBuilder {
    fn is_view_on(&self, view: &ShardView, tile: u16) -> (r: bool)
        ensures
            r == view_on(self@.shards, view@, tile),
    {
        broadcast use group_deep;

        (view.shard.0 as usize) < self.shards.len() && self.shards[view.shard.0 as usize].tile
            == tile
    }

    /// The views on a tile, in order.
    pub fn views_on(&self, views: &Vec<ShardView>, tile: u16) -> (r: Vec<ShardView>)
        ensures
            deep(r@) == tile_views(self@.shards, deep(views@), tile),
    {
        broadcast use group_deep;

        let ghost model = deep(views@);
        let mut found: Vec<ShardView> = Vec::new();
        assert(deep(found@) =~= Seq::<ViewModel>::empty());
        let mut i: usize = 0;
        while i < views.len()
            invariant
                i <= views@.len(),
                tile_views(self@.shards, model, tile) == tile_views_from(
                    self@.shards,
                    model,
                    tile,
                    i as int,
                    deep(found@),
                ),
            decreases views@.len() - i,
        {
            assert(model[i as int] == views@[i as int]@);
            if self.is_view_on(&views[i], tile) {
                found.push(views[i].duplicate());
            }
            i += 1;
        }
        found
    }

    fn all_views(&self, values: &Vec<MidValueId>) -> (r: ExpansionResult<Vec<ViewList>>)
        ensures
            match r {
                Ok(lists) => all_views_from(self@, values@, 0, Seq::empty()) == Ok::<
                    Seq<Seq<ViewModel>>,
                    ExpansionError,
                >(deep(lists@)) && lists@.len() == values@.len(),
                Err(e) => all_views_from(self@, values@, 0, Seq::empty()) == Err::<
                    Seq<Seq<ViewModel>>,
                    ExpansionError,
                >(e),
            },
    {
        broadcast use group_deep;

        let mut lists: Vec<ViewList> = Vec::new();
        assert(deep(lists@) =~= Seq::<Seq<ViewModel>>::empty());
        let mut i: usize = 0;
        while i < values.len()
            invariant
                i <= values@.len(),
                lists@.len() == i,
                all_views_from(self@, values@, 0, Seq::empty()) == all_views_from(
                    self@,
                    values@,
                    i as int,
                    deep(lists@),
                ),
            decreases values@.len() - i,
        {
            let views = duplicate_all(self.value_views(values[i])?);
            lists.push(ViewList { views });
            i += 1;
        }
        Ok(lists)
    }

    fn are_alike(&self, results: &Vec<ViewList>) -> (r: bool)
        requires
            results@.len() > 0,
        ensures
            r == alike(self@.shards, deep(results@), self@.tile_count),
    {
        broadcast use group_deep;

        let ghost model = deep(results@);
        assert(model[0] == results@[0]@);
        let mut i: usize = 0;
        while i < results.len()
            invariant
                i <= results@.len(),
                forall|r: int, t: int|
                    0 <= r < i && 0 <= t < self.tile_count ==> (#[trigger] tile_views(
                        self@.shards,
                        model[r],
                        t as u16,
                    )).len() == tile_views(self@.shards, model[0], t as u16).len(),
            decreases results@.len() - i,
        {
            assert(model[i as int] == results@[i as int]@);
            let mut tile: u16 = 0;
            while tile < self.tile_count
                invariant
                    tile <= self.tile_count,
                    forall|t: int|
                        0 <= t < tile ==> (#[trigger] tile_views(
                            self@.shards,
                            model[i as int],
                            t as u16,
                        )).len() == tile_views(self@.shards, model[0], t as u16).len(),
                decreases self.tile_count - tile,
            {
                let here = self.views_on(&results[i].views, tile);
                let first = self.views_on(&results[0].views, tile);
                if here.len() != first.len() {
                    assert(tile_views(self@.shards, model[i as int], (tile as int) as u16).len()
                        != tile_views(self@.shards, model[0], (tile as int) as u16).len());
                    return false;
                }
                tile += 1;
            }
            i += 1;
        }
        true
    }

    fn ordinal(&self, blocks: &Vec<LowShardId>, tile: u16, k: usize) -> (r: usize)
        requires
            k <= blocks@.len(),
        ensures
            r as nat == ordinal_of(self@.shards, blocks@, tile, k as int),
    {
        broadcast use group_deep;

        let mut count: usize = 0;
        let mut i: usize = 0;
        while i < k
            invariant
                i <= k,
                count <= i,
                count as nat == ordinal_of(self@.shards, blocks@, tile, i as int),
            decreases k - i,
        {
            if (blocks[i].0 as usize) < self.shards.len() && self.shards[blocks[i].0 as usize].tile
                == tile {
                count += 1;
            }
            i += 1;
        }
        count
    }

    fn find_same_block(&self, resident: &Vec<ShardView>, extents: &Vec<ShardExtent>) -> (r: Option<
        LowShardId,
    >)
        ensures
            r == same_block_from(self@.shards, deep(resident@), extents@, 0),
    {
        broadcast use group_deep;

        let ghost model = deep(resident@);
        let mut i: usize = 0;
        while i < resident.len()
            invariant
                i <= resident@.len(),
                same_block_from(self@.shards, model, extents@, 0) == same_block_from(
                    self@.shards,
                    model,
                    extents@,
                    i as int,
                ),
            decreases resident@.len() - i,
        {
            assert(model[i as int] == resident@[i as int]@);
            let view = &resident[i];
            if same_extents(view.extents.as_slice(), extents.as_slice()) && (view.shard.0 as usize)
                < self.shards.len() && same_extents(
                view.extents.as_slice(),
                self.shards[view.shard.0 as usize].extents.as_slice(),
            ) {
                return Some(view.shard);
            }
            i += 1;
        }
        None
    }

    /// Lets results take the storage of inputs.
    pub fn bind_compute_aliases(
        &mut self,
        results: &Vec<LowShardId>,
        aliases: &Vec<(usize, usize)>,
        inputs: &Vec<ViewList>,
        offset: i32,
    ) -> (r: ExpansionResult<()>)
        ensures
            built(
                r,
                final(self)@,
                bind_aliases_from(
                    old(self)@,
                    results@,
                    aliases@,
                    deep(inputs@),
                    offset,
                    0,
                ),
            ),
    {
        broadcast use group_deep;

        let ghost start = self@;
        let ghost model = deep(inputs@);
        let mut i: usize = 0;
        while i < aliases.len()
            invariant
                i <= aliases@.len(),
                bind_aliases_from(start, results@, aliases@, model, offset, 0)
                    == bind_aliases_from(
                    self@,
                    results@,
                    aliases@,
                    model,
                    offset,
                    i as int,
                ),
            decreases aliases@.len() - i,
        {
            let (result, input) = aliases[i];
            if result >= results.len() {
                return Err(ExpansionError::ResultArity);
            }
            if input >= inputs.len() {
                return Err(ExpansionError::InvalidOperatorPlan);
            }
            assert(model[input as int] == inputs@[input as int]@);
            let block = self.block(results[result])?;
            let resident = self.views_on(&inputs[input].views, block.tile);
            let source = match self.find_same_block(&resident, &block.extents) {
                Some(source) => source,
                None => {
                    return Err(ExpansionError::InvalidOperatorPlan);
                },
            };
            let definition = if offset == 0 {
                ShardDefinition::WritableAlias(source)
            } else {
                ShardDefinition::ShiftedAlias { source, offset }
            };
            self.rebind(results[result], definition)?;
            i += 1;
        }
        Ok(())
    }

    fn find_elementwise(&self, views: &Vec<ShardView>, shape: &[u32], output: LowShardId) -> (r:
        ExpansionResult<ShardView>)
        ensures
            match block_of(self@.shards, output) {
                Err(e) => r == Err::<ShardView, ExpansionError>(e),
                Ok(block) => match r {
                    Ok(view) => elementwise_from(deep(views@), shape@, block, 0) == Some(view@),
                    Err(e) => elementwise_from(deep(views@), shape@, block, 0) is None && e
                        == ExpansionError::InvalidOperatorPlan,
                },
            },
    {
        broadcast use group_deep;

        let block = self.block(output)?;
        let ghost model = deep(views@);
        let mut i: usize = 0;
        while i < views.len()
            invariant
                i <= views@.len(),
                elementwise_from(model, shape@, block@, 0) == elementwise_from(
                    model,
                    shape@,
                    block@,
                    i as int,
                ),
            decreases views@.len() - i,
        {
            assert(model[i as int] == views@[i as int]@);
            match find_elementwise_view(&views[i], shape, block) {
                Some(view) => {
                    return Ok(view);
                },
                None => {},
            }
            i += 1;
        }
        Err(ExpansionError::InvalidOperatorPlan)
    }

    fn operand_view(
        &self,
        indexing: &OperandIndexing,
        value: MidValueId,
        resident: &Vec<ShardView>,
        results: &Vec<LowShardId>,
        fragments: usize,
        ordinal: usize,
    ) -> (r: ExpansionResult<ShardView>)
        ensures
            obtained(
                r,
                operand_view(
                    self@,
                    indexing@,
                    value,
                    deep(resident@),
                    results@,
                    fragments as nat,
                    ordinal as nat,
                ),
            ),
    {
        broadcast use group_deep;

        match indexing {
            OperandIndexing::Elementwise { result } => {
                if *result >= results.len() {
                    return Err(ExpansionError::ResultArity);
                }
                if value.0 as usize >= self.types.len() {
                    return Err(ExpansionError::InvalidOperatorPlan);
                }
                self.find_elementwise(
                    resident,
                    self.types[value.0 as usize].shape.0.as_slice(),
                    results[*result],
                )
            },
            OperandIndexing::Local(window) => {
                let index: usize = if resident.len() == 1 {
                    0
                } else {
                    ordinal
                };
                if (resident.len() != 1 && resident.len() != fragments) || index
                    >= resident.len() {
                    return Err(ExpansionError::InvalidOperatorPlan);
                }
                assert(deep(resident@)[index as int] == resident@[index as int]@);
                window_of(&resident[index], window)
            },
            OperandIndexing::Fragment(window) => {
                let index: usize = if resident.len() == 1 {
                    0
                } else {
                    ordinal
                };
                if (resident.len() != 1 && resident.len() != fragments) || index
                    >= resident.len() {
                    return Err(ExpansionError::InvalidOperatorPlan);
                }
                assert(deep(resident@)[index as int] == resident@[index as int]@);
                fragment_of(&resident[index], window)
            },
        }
    }

    fn operand_views(
        &self,
        compute: &BlockCompute,
        inputs: &Vec<ViewList>,
        results: &Vec<LowShardId>,
        tile: u16,
        fragments: usize,
        ordinal: usize,
    ) -> (r: ExpansionResult<Vec<ShardView>>)
        requires
            inputs@.len() == compute.inputs@.len(),
        ensures
            crate::blocks::obtained_all(
                r,
                operand_views_from(
                    self@,
                    compute@,
                    deep(inputs@),
                    results@,
                    tile,
                    fragments as nat,
                    ordinal as nat,
                    0,
                    Seq::empty(),
                ),
            ),
    {
        broadcast use group_deep;

        let ghost model = deep(inputs@);
        let mut views: Vec<ShardView> = Vec::new();
        assert(deep(views@) =~= Seq::<ViewModel>::empty());
        let mut i: usize = 0;
        while i < compute.operands.len() && i < compute.inputs.len()
            invariant
                i <= compute.operands@.len(),
                i <= compute.inputs@.len(),
                operand_views_from(
                    self@,
                    compute@,
                    model,
                    results@,
                    tile,
                    fragments as nat,
                    ordinal as nat,
                    0,
                    Seq::empty(),
                ) == operand_views_from(
                    self@,
                    compute@,
                    model,
                    results@,
                    tile,
                    fragments as nat,
                    ordinal as nat,
                    i as int,
                    deep(views@),
                ),
            decreases compute.operands@.len() - i,
        {
            assert(model[i as int] == inputs@[i as int]@);
            assert(compute@.operands[i as int] == compute.operands@[i as int]@);
            let resident = self.views_on(&inputs[i].views, tile);
            let view = self.operand_view(
                &compute.operands[i],
                compute.inputs[i],
                &resident,
                results,
                fragments,
                ordinal,
            )?;
            views.push(view);
            i += 1;
        }
        Ok(views)
    }

    fn result_blocks(&self, results: &Vec<ViewList>, tile: u16, ordinal: usize) -> (r:
        ExpansionResult<Vec<LowShardId>>)
        ensures
            match r {
                Ok(blocks) => result_blocks_from(
                    self@.shards,
                    deep(results@),
                    tile,
                    ordinal as nat,
                    0,
                    Seq::empty(),
                ) == Ok::<Seq<LowShardId>, ExpansionError>(blocks@),
                Err(e) => result_blocks_from(
                    self@.shards,
                    deep(results@),
                    tile,
                    ordinal as nat,
                    0,
                    Seq::empty(),
                ) == Err::<Seq<LowShardId>, ExpansionError>(e),
            },
    {
        broadcast use group_deep;

        let ghost model = deep(results@);
        let mut blocks: Vec<LowShardId> = Vec::new();
        assert(blocks@ =~= Seq::<LowShardId>::empty());
        let mut i: usize = 0;
        while i < results.len()
            invariant
                i <= results@.len(),
                result_blocks_from(
                    self@.shards,
                    model,
                    tile,
                    ordinal as nat,
                    0,
                    Seq::empty(),
                ) == result_blocks_from(
                    self@.shards,
                    model,
                    tile,
                    ordinal as nat,
                    i as int,
                    blocks@,
                ),
            decreases results@.len() - i,
        {
            assert(model[i as int] == results@[i as int]@);
            let resident = self.views_on(&results[i].views, tile);
            if ordinal >= resident.len() {
                return Err(ExpansionError::InvalidOperatorPlan);
            }
            assert(deep(resident@)[ordinal as int] == resident@[ordinal as int]@);
            blocks.push(resident[ordinal].shard);
            i += 1;
        }
        Ok(blocks)
    }

    fn result_views(&self, results: &Vec<LowShardId>, windows: &Vec<Window>) -> (r: ExpansionResult<
        Vec<ShardView>,
    >)
        ensures
            crate::blocks::obtained_all(
                r,
                result_views_from(self@.shards, results@, deep(windows@), 0, Seq::empty()),
            ),
    {
        broadcast use group_deep;

        let ghost model = deep(windows@);
        let mut views: Vec<ShardView> = Vec::new();
        assert(deep(views@) =~= Seq::<ViewModel>::empty());
        let mut i: usize = 0;
        while i < results.len()
            invariant
                i <= results@.len(),
                result_views_from(self@.shards, results@, model, 0, Seq::empty())
                    == result_views_from(
                    self@.shards,
                    results@,
                    model,
                    i as int,
                    deep(views@),
                ),
            decreases results@.len() - i,
        {
            let whole = self.full_view(results[i])?;
            let view = if i < windows.len() {
                assert(model[i as int] == windows@[i as int]@);
                fragment_of(&whole, &windows[i].ranges)?
            } else {
                whole
            };
            views.push(view);
            i += 1;
        }
        Ok(views)
    }

    /// Adds a cast that consumes its input chunk by chunk.
    pub fn build_shifted_cast<M: BlockTarget>(
        &mut self,
        target: &M,
        tile: u16,
        provenance: WorkProvenance,
        kernel: &TileKernelSpec,
        input: &ShardView,
        output: &ShardView,
    ) -> (r: ExpansionResult<()>)
        ensures
            built(
                r,
                final(self)@,
                append_shifted_cast(
                    target,
                    old(self)@,
                    tile,
                    provenance,
                    kernel@,
                    input@,
                    output@,
                ),
            ),
    {
        broadcast use group_deep;

        let dimensions = match find_widths(&input.extents) {
            Some(dimensions) => dimensions,
            None => {
                return Err(ExpansionError::InvalidOperatorPlan);
            },
        };
        let order = self.block(output.shard)?.tensor_type.format.layout.order;
        let (axis, ranges) = match target.cast_chunks(order, dimensions.as_slice()) {
            Some(chunks) => chunks,
            None => {
                return Err(ExpansionError::InvalidOperatorPlan);
            },
        };
        let ghost start = self@;
        let mut i: usize = 0;
        while i < ranges.len()
            invariant
                i <= ranges@.len(),
                append_chunks_from(
                    start,
                    tile,
                    provenance,
                    kernel@,
                    input@,
                    output@,
                    axis as int,
                    ranges@,
                    0,
                ) == append_chunks_from(
                    self@,
                    tile,
                    provenance,
                    kernel@,
                    input@,
                    output@,
                    axis as int,
                    ranges@,
                    i as int,
                ),
            decreases ranges@.len() - i,
        {
            let (first, last) = ranges[i];
            match (find_chunk(input, axis, first, last), find_chunk(output, axis, first, last)) {
                (Some(from), Some(to)) => {
                    let run = new_plain_run(
                        provenance,
                        BlockKernel::Tile(kernel.duplicate()),
                        one_view(from),
                        one_view(to),
                    );
                    self.append_kernel(tile, run)?;
                },
                _ => {
                    return Err(ExpansionError::InvalidOperatorPlan);
                },
            }
            i += 1;
        }
        Ok(())
    }

    fn append_compute<M: BlockTarget>(
        &mut self,
        target: &M,
        compute: &BlockCompute,
        tile: u16,
        inputs: Vec<ShardView>,
        results: Vec<ShardView>,
    ) -> (r: ExpansionResult<()>)
        ensures
            built(
                r,
                final(self)@,
                append_compute(
                    target,
                    old(self)@,
                    compute@,
                    tile,
                    deep(inputs@),
                    deep(results@),
                ),
            ),
    {
        broadcast use group_deep;

        if some_has_no_elements(&inputs) || some_has_no_elements(&results) {
            return Ok(());
        }
        if is_donating(compute) {
            if inputs.len() != 1 {
                return Err(ExpansionError::InvalidOperatorPlan);
            }
            if results.len() != 1 {
                return Err(ExpansionError::ResultArity);
            }
            assert(deep(inputs@)[0] == inputs@[0]@);
            assert(deep(results@)[0] == results@[0]@);
            return self.build_shifted_cast(
                target,
                tile,
                compute.provenance,
                &compute.kernel,
                &inputs[0],
                &results[0],
            );
        }
        let kernel = size_compute(compute, &inputs, &results)?;
        let run = new_plain_run(compute.provenance, BlockKernel::Tile(kernel), inputs, results);
        self.append_kernel(tile, run)
    }

    fn compute_block<M: BlockTarget>(
        &mut self,
        target: &M,
        compute: &BlockCompute,
        inputs: &Vec<ViewList>,
        results: &Vec<ViewList>,
        tile: u16,
        ordinal: usize,
    ) -> (r: ExpansionResult<()>)
        requires
            inputs@.len() == compute.inputs@.len(),
            results@.len() > 0,
        ensures
            built(
                r,
                final(self)@,
                compute_block(
                    target,
                    old(self)@,
                    compute@,
                    deep(inputs@),
                    deep(results@),
                    tile,
                    ordinal as nat,
                ),
            ),
    {
        broadcast use group_deep;

        let blocks = self.result_blocks(results, tile, ordinal)?;
        let offset: i32 = if is_donating(compute) {
            -(target.cast_prefix_bytes() as i32)
        } else {
            0
        };
        self.bind_compute_aliases(&blocks, &compute.output_aliases, inputs, offset)?;
        assert(deep(results@)[0] == results@[0]@);
        let first = self.views_on(&results[0].views, tile);
        let views = self.operand_views(compute, inputs, &blocks, tile, first.len(), ordinal)?;
        let written = self.result_views(&blocks, &compute.output_windows)?;
        self.append_compute(target, compute, tile, views, written)
    }

    /// Adds a computation.
    pub fn build_compute<M: BlockTarget>(&mut self, target: &M, compute: &BlockCompute) -> (r:
        ExpansionResult<()>)
        ensures
            built(r, final(self)@, build_compute(target, old(self)@, compute@)),
    {
        broadcast use group_deep;

        if compute.results.len() == 0 {
            return Err(ExpansionError::ResultArity);
        }
        let blocks = self.allocation_shards(compute.results[0])?;
        let inputs = self.all_views(&compute.inputs)?;
        let results = self.all_views(&compute.results)?;
        if !self.are_alike(&results) {
            return Err(ExpansionError::ResultArity);
        }
        let ghost start = self@;
        let mut k: usize = 0;
        while k < blocks.len()
            invariant
                k <= blocks@.len(),
                compute_blocks_from(
                    target,
                    start,
                    compute@,
                    deep(inputs@),
                    deep(results@),
                    blocks@,
                    0,
                ) == compute_blocks_from(
                    target,
                    self@,
                    compute@,
                    deep(inputs@),
                    deep(results@),
                    blocks@,
                    k as int,
                ),
            decreases blocks@.len() - k,
        {
            let block = self.block(blocks[k])?;
            if !has_no_elements(&block.extents) {
                let tile: u16 = block.tile;
                let ordinal: usize = self.ordinal(&blocks, tile, k);
                self.compute_block(target, compute, &inputs, &results, tile, ordinal)?;
            }
            k += 1;
        }
        Ok(())
    }

    fn product_operands(&self, inputs: &Vec<ViewList>, windows: &Vec<Window>, tile: u16) -> (r:
        ExpansionResult<Vec<ShardView>>)
        ensures
            crate::blocks::obtained_all(
                r,
                product_operands_from(
                    self@.shards,
                    deep(inputs@),
                    deep(windows@),
                    tile,
                    0,
                    Seq::empty(),
                ),
            ),
    {
        broadcast use group_deep;

        let ghost model = deep(inputs@);
        let ghost ranges = deep(windows@);
        let mut views: Vec<ShardView> = Vec::new();
        assert(deep(views@) =~= Seq::<ViewModel>::empty());
        let mut i: usize = 0;
        while i < inputs.len() && i < windows.len()
            invariant
                i <= inputs@.len(),
                i <= windows@.len(),
                product_operands_from(self@.shards, model, ranges, tile, 0, Seq::empty())
                    == product_operands_from(
                    self@.shards,
                    model,
                    ranges,
                    tile,
                    i as int,
                    deep(views@),
                ),
            decreases inputs@.len() - i,
        {
            assert(model[i as int] == inputs@[i as int]@);
            assert(ranges[i as int] == windows@[i as int]@);
            let resident = self.views_on(&inputs[i].views, tile);
            if resident.len() == 0 {
                return Err(ExpansionError::InvalidOperatorPlan);
            }
            assert(deep(resident@)[0] == resident@[0]@);
            let view = window_of(&resident[0], &windows[i].ranges)?;
            views.push(view);
            i += 1;
        }
        Ok(views)
    }

    /// Adds a product of distributed values.
    pub fn build_product<M: BlockTarget>(&mut self, target: &M, product: &BlockProduct) -> (r:
        ExpansionResult<()>)
        ensures
            built(r, final(self)@, build_product(target, old(self)@, product@)),
    {
        broadcast use group_deep;

        if product.results.len() != 1 {
            return Err(ExpansionError::ResultArity);
        }
        let blocks = self.allocation_shards(product.results[0])?;
        let inputs = self.all_views(&product.inputs)?;
        let ghost start = self@;
        let mut k: usize = 0;
        while k < blocks.len()
            invariant
                k <= blocks@.len(),
                product_blocks_from(target, start, product@, deep(inputs@), blocks@, 0)
                    == product_blocks_from(
                    target,
                    self@,
                    product@,
                    deep(inputs@),
                    blocks@,
                    k as int,
                ),
            decreases blocks@.len() - k,
        {
            let block = self.block(blocks[k])?;
            if !has_no_elements(&block.extents) {
                let tile: u16 = block.tile;
                let mut one: Vec<LowShardId> = Vec::new();
                one.push(blocks[k]);
                assert(one@ =~= seq![blocks@[k as int]]);
                self.bind_compute_aliases(&one, &product.output_aliases, &inputs, 0)?;
                let operands = self.product_operands(&inputs, &product.windows, tile)?;
                self.product_calls(
                    target,
                    product.provenance,
                    tile,
                    &operands,
                    blocks[k],
                    product.product,
                )?;
            }
            k += 1;
        }
        Ok(())
    }
}

/// A product of distributed values, as it is handed on.
#[derive(Debug)]
pub struct BlockProduct {
    pub provenance: WorkProvenance,
    pub product: Product,
    pub inputs: Vec<MidValueId>,
    pub results: Vec<MidValueId>,
    pub windows: Vec<Window>,
    pub output_aliases: Vec<(usize, usize)>,
}

impl View for BlockProduct {
    type V = ProductModel;

    open spec fn view(&self) -> ProductModel {
        ProductModel {
            provenance: self.provenance,
            product: self.product,
            inputs: self.inputs@,
            results: self.results@,
            windows: deep(self.windows@),
            output_aliases: self.output_aliases@,
        }
    }
}

} // verus!
