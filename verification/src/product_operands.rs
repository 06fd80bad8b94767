//! What a product computes with: every block of its result from the right
//! operand of the operation, block by block of the inner axis.

use crate::gemm::{
    block_range, divides_inner, gemm_passes_from, loading, padded_axis, right_block,
    streams_interleaved, GemmKernels, GemmPlan,
};
use crate::low::{LowLoweringError, LowShardId, RunModel, ShardModel, ViewModel};
use crate::mid::{GemmDistribution, GemmOrientation, MidOperation};
use crate::product_coverage::{
    block_output, computes, computes_with, lemma_products_compute_every_block, makes, makes_at,
    run_of, weights_brought, Block, BlockOperands,
};
use crate::reduction_sum::lower_blocked_gemm;
use crate::schedule::{follows, same_shard};
use crate::schedule_products::lemma_lower_blocked_gemm;
use crate::state::{narrow_from, StateModel};
use crate::target::Target;
use crate::tensor::ShardExtent;
use vstd::prelude::*;

verus! {

/// The extent contains a range.
pub open spec fn contains_range(extent: ShardExtent, start: int, end: int) -> bool {
    extent.start <= start && end <= extent.physical_end
}

/// The view is a block of a matrix: one range of an axis, and all that the shard
/// has of the other axes.
pub open spec fn is_band_of(
    shards: Seq<ShardModel>,
    view: ViewModel,
    id: LowShardId,
    axis: int,
    start: int,
    end: int,
) -> bool {
    let whole = shards[id.0 as int].extents;
    &&& id.0 < shards.len()
    &&& view.shard == id
    &&& view.extents.len() == whole.len()
    &&& 0 <= axis < whole.len()
    &&& view.extents[axis].start == start
    &&& view.extents[axis].physical_end == end
    &&& forall|a: int|
        0 <= a < whole.len() && a != axis ==> #[trigger] view.extents[a] == whole[a]
}

/// The view is a block of a shard of the right operand: ranges of its last two
/// axes, and all that it has of the others.
pub open spec fn is_right_block(
    shards: Seq<ShardModel>,
    view: ViewModel,
    id: LowShardId,
    inner: (int, int),
    columns: (int, int),
) -> bool {
    let whole = shards[id.0 as int].extents;
    let rank = whole.len() as int;
    &&& id.0 < shards.len()
    &&& view.shard == id
    &&& view.extents.len() == rank
    &&& rank >= 2
    &&& contains_range(whole[rank - 2], inner.0, inner.1)
    &&& contains_range(whole[rank - 1], columns.0, columns.1)
    &&& view.extents[rank - 2].start == inner.0
    &&& view.extents[rank - 2].physical_end == inner.1
    &&& view.extents[rank - 1].start == columns.0
    &&& view.extents[rank - 1].physical_end == columns.1
    &&& forall|a: int| 0 <= a < rank - 2 ==> #[trigger] view.extents[a] == whole[a]
}

/// What a block of a product is computed with.
pub struct ProductUse {
    pub run: RunModel,
    pub left: ViewModel,
    pub weights: ViewModel,
    pub right: LowShardId,
    pub right_block: ViewModel,
    /// The shards that there are when the run is scheduled.
    pub shards: Seq<ShardModel>,
}

/// A block of an output is computed on its tile, from a block of the inner axis
/// of the left operand and the block of a shard of the right operand with the
/// same inner elements and the output's columns, which is there or is brought
/// there. The first block of the inner axis starts the sum, the others add to it.
pub open spec fn computes_from<M: Target>(
    target: &M,
    s: StateModel,
    t: StateModel,
    operation: MidOperation,
    kernels: GemmKernels,
    output: LowShardId,
    inner: (int, int),
    columns: (int, int),
    used: ProductUse,
) -> bool {
    let tile = t.shards[output.0 as int].tile;
    let right = operation.inputs@[1];
    let kernel = if inner.0 == 0 {
        kernels.initialize
    } else {
        kernels.accumulate
    };
    &&& output.0 < t.shards.len()
    &&& right.0 < s.canonical.len()
    &&& s.canonical[right.0 as int].contains(used.right)
    &&& used.right.0 < t.shards.len()
    &&& t.shards[used.right.0 as int].extents.len() <= usize::MAX ==> is_right_block(
        t.shards,
        used.right_block,
        used.right,
        inner,
        columns,
    )
    &&& weights_brought(target, t, tile, used.right_block, used.weights)
    &&& used.left.extents.len() > 0
    &&& exists|axis: int|
        0 <= axis < used.left.extents.len() && (#[trigger] used.left.extents[axis]).start
            == inner.0 && used.left.extents[axis].physical_end == inner.1
    &&& used.run.metadata.kernel == loading(
        kernel,
        t.shards[used.weights.shard.0 as int].tensor_type.format.layout.memory_class,
    )
    &&& used.run.inputs == seq![seq![used.left], seq![used.weights]]
    &&& is_band_of(
        t.shards,
        used.run.output,
        output,
        t.shards[output.0 as int].extents.len() - 1,
        columns.0,
        columns.1,
    )
    &&& makes(t, used.shards, used.run, tile)
}

/// A product whose outputs stay in place computes every block of every shard of
/// its result, for every block of the inner axis, with the right operand of the
/// operation.
pub proof fn lemma_products_compute_with_their_right_operand<M: Target>(
    target: &M,
    s: StateModel,
    operation: MidOperation,
    kernels: GemmKernels,
    inner_block: u32,
    column_block: u32,
    orientation: GemmOrientation,
    pass: int,
    column: int,
    output: LowShardId,
)
    requires
        0 <= pass,
        0 <= column,
    ensures
        match lower_blocked_gemm(
            target,
            s,
            operation,
            kernels,
            inner_block,
            column_block,
            orientation,
            GemmDistribution::OutputStationary,
        ) {
            Err(_) => true,
            Ok(t) => {
                let left = operation.inputs@[0];
                let result = operation.results@[0];
                let first_left = s.shards[s.canonical[left.0 as int][0].0 as int];
                let first_output = s.shards[s.canonical[result.0 as int][0].0 as int];
                let padded_left = target.spec_resolve(
                    first_left.tensor_type.format.layout,
                    first_left.tensor_type.shape,
                );
                let padded_output = target.spec_resolve(
                    first_output.tensor_type.format.layout,
                    first_output.tensor_type.shape,
                );
                let inner = (pass * inner_block, (pass + 1) * inner_block);
                let columns = (column * column_block, (column + 1) * column_block);
                &&& orientation == GemmOrientation::Normal
                &&& operation.inputs@.len() == 2
                &&& operation.results@.len() == 1
                &&& left.0 < s.canonical.len()
                &&& result.0 < s.canonical.len()
                &&& padded_left is Ok
                &&& padded_output is Ok
                &&& inner_block > 0
                &&& column_block > 0
                &&& padded_left->Ok_0.padded_shape.last() % inner_block == 0
                &&& padded_output->Ok_0.padded_shape.last() % column_block == 0
                &&& s.canonical[result.0 as int].contains(output) && output.0 < s.shards.len()
                    && s.shards[output.0 as int].extents.len()
                    == first_output.tensor_type.shape.len() && contains_range(
                    s.shards[output.0 as int].extents.last(),
                    columns.0,
                    columns.1,
                ) && inner.1 <= padded_left->Ok_0.padded_shape.last() && columns.1
                    <= padded_output->Ok_0.padded_shape.last() && first_output.tensor_type.shape.len()
                    <= usize::MAX && first_left.tensor_type.shape.len() <= usize::MAX
                    ==> exists|used: ProductUse| #[trigger]
                    computes_from(
                        target,
                        s,
                        t,
                        operation,
                        kernels,
                        output,
                        inner,
                        columns,
                        used,
                    )
            },
        },
{
    if let Ok(t) = lower_blocked_gemm(
        target,
        s,
        operation,
        kernels,
        inner_block,
        column_block,
        orientation,
        GemmDistribution::OutputStationary,
    ) {
        let streamed = kernels.requirements.inputs.len() >= 2 && divides_inner(
            kernels.requirements.inputs[1].format.layout.axes,
        );
        let rights = s.canonical[operation.inputs@[1].0 as int];
        let outputs = s.canonical[operation.results@[0].0 as int];
        let first_left = s.shards[s.canonical[operation.inputs@[0].0 as int][0].0 as int];
        let first_output = s.shards[outputs[0].0 as int];
        let inner = padded_axis(target, first_left)->Ok_0;
        let columns = padded_axis(target, first_output)->Ok_0;
        let plan = GemmPlan {
            source: operation.source,
            left: operation.inputs@[0],
            right: operation.inputs@[1],
            output: operation.results@[0],
            inner_block,
            column_block,
            inner_blocks: (inner / inner_block) as u32,
            column_blocks: (columns / column_block) as u32,
            left_rank: first_left.tensor_type.shape.len() as usize,
            output_rank: first_output.tensor_type.shape.len() as usize,
            access_tail: kernels.requirements.inputs[1].access_tail_bytes,
            local_staging: kernels.requirements.inputs[1].local_staging,
            streamed,
            interleaved: if streamed {
                streams_interleaved(
                    target,
                    s.shards,
                    outputs,
                    kernels.requirements,
                    inner_block,
                    column_block,
                )->Ok_0
            } else {
                false
            },
        };
        assert(gemm_passes_from(
            target,
            s,
            plan,
            kernels,
            rights,
            outputs,
            0,
            Seq::empty(),
            Seq::empty(),
        ) == Ok::<StateModel, LowLoweringError>(t));
        if outputs.contains(output) && output.0 < s.shards.len()
            && s.shards[output.0 as int].extents.len() == first_output.tensor_type.shape.len()
            && contains_range(
            s.shards[output.0 as int].extents.last(),
            column * column_block,
            (column + 1) * column_block,
        ) && (pass + 1) * inner_block <= inner && (column + 1) * column_block <= columns
            && first_output.tensor_type.shape.len() <= usize::MAX
            && first_left.tensor_type.shape.len() <= usize::MAX {
            lemma_count(pass, inner_block, inner);
            lemma_count(column, column_block, columns);
            lemma_products_compute_every_block(
                target,
                s,
                plan,
                kernels,
                rights,
                outputs,
                pass,
                column,
                output,
            );
            lemma_lower_blocked_gemm(
                target,
                s,
                operation,
                kernels,
                inner_block,
                column_block,
                orientation,
                GemmDistribution::OutputStationary,
            );
            reveal(follows);
            assert(same_shard(s.shards[output.0 as int], t.shards[output.0 as int]));
            lemma_computed_from(
                target,
                s,
                t,
                operation,
                plan,
                kernels,
                Block {
                    output,
                    inner: block_range(pass, inner_block),
                    columns: block_range(column, column_block),
                },
            );
        }
    }
}

proof fn lemma_count(k: int, block: u32, total: u32)
    requires
        0 <= k,
        block > 0,
        (k + 1) * block <= total,
    ensures
        k < total / block,
        0 <= k * block <= u32::MAX,
        0 <= (k + 1) * block <= u32::MAX,
{
    vstd::arithmetic::div_mod::lemma_div_is_ordered((k + 1) * block, total as int, block as int);
    vstd::arithmetic::div_mod::lemma_div_by_multiple(k + 1, block as int);
    vstd::arithmetic::mul::lemma_mul_nonnegative(k, block as int);
    assert((k + 1) * block == k * block + block) by (nonlinear_arith);
}

proof fn lemma_right_block(
    shards: Seq<ShardModel>,
    id: LowShardId,
    columns: (u32, u32),
    inner: (u32, u32),
)
    requires
        shards[id.0 as int].extents.len() <= usize::MAX,
    ensures
        match right_block(shards, id, columns, inner) {
            Ok(view) => is_right_block(
                shards,
                view,
                id,
                (inner.0 as int, inner.1 as int),
                (columns.0 as int, columns.1 as int),
            ),
            Err(_) => true,
        },
{
    reveal_with_fuel(narrow_from, 3);
}

proof fn lemma_block_output(shards: Seq<ShardModel>, plan: GemmPlan, block: Block)
    requires
        block.output.0 < shards.len(),
        plan.output_rank > 0,
        plan.output_rank == shards[block.output.0 as int].extents.len(),
    ensures
        match block_output(shards, plan, block) {
            Some(view) => is_band_of(
                shards,
                view,
                block.output,
                shards[block.output.0 as int].extents.len() - 1,
                block.columns.0 as int,
                block.columns.1 as int,
            ),
            None => true,
        },
{
    reveal_with_fuel(narrow_from, 2);
}

/// What is computed with known operands is computed from the right operand.
proof fn lemma_computed_from<M: Target>(
    target: &M,
    s: StateModel,
    t: StateModel,
    operation: MidOperation,
    plan: GemmPlan,
    kernels: GemmKernels,
    block: Block,
)
    requires
        operation.inputs@.len() == 2,
        operation.inputs@[1].0 < s.canonical.len(),
        block.output.0 < t.shards.len(),
        plan.output_rank > 0,
        plan.output_rank == t.shards[block.output.0 as int].extents.len(),
        computes(
            target,
            t,
            plan,
            kernels,
            s.canonical[operation.inputs@[1].0 as int],
            block,
        ),
    ensures
        exists|used: ProductUse| #[trigger]
            computes_from(
                target,
                s,
                t,
                operation,
                kernels,
                block.output,
                (block.inner.0 as int, block.inner.1 as int),
                (block.columns.0 as int, block.columns.1 as int),
                used,
            ),
{
    let rights = s.canonical[operation.inputs@[1].0 as int];
    let (operands, shards, at) = choose|
        operands: BlockOperands,
        shards: Seq<ShardModel>,
        at: int,
    | #[trigger]
        computes_with(target, t, plan, kernels, rights, block, operands, shards, at);
    if t.shards[operands.right.0 as int].extents.len() <= usize::MAX {
        lemma_right_block(t.shards, operands.right, block.columns, block.inner);
    }
    lemma_block_output(t.shards, plan, block);
    let used = ProductUse {
        run: run_of(t.shards, plan, kernels, block, operands),
        left: operands.left,
        weights: operands.weights,
        right: operands.right,
        right_block: right_block(t.shards, operands.right, block.columns, block.inner)->Ok_0,
        shards,
    };
    let tile = t.shards[block.output.0 as int].tile;
    assert(makes_at(t, shards, used.run, tile, at));
    assert(makes(t, used.shards, used.run, tile));
    assert(used.left.extents[plan.left_rank - 1].start == block.inner.0);
    assert(computes_from(
        target,
        s,
        t,
        operation,
        kernels,
        block.output,
        (block.inner.0 as int, block.inner.1 as int),
        (block.columns.0 as int, block.columns.1 as int),
        used,
    ));
}

} // verus!
