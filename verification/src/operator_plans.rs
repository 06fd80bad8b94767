//! What operators compute by their plans: with the kernels, the sizes and the
//! operands that the plan and the operation name.

use crate::attention::AttentionSizes;
use crate::attention_operands::{
    lemma_attention_computes_with_its_inputs, lemma_whole_attention_computes_with_its_inputs,
    part_attends, part_attends_to_all,
};
use crate::gemm::{padded_axis, GemmKernels};
use crate::left_operands::{left_read, lemma_products_read_their_left_operand};
use crate::lookup::{converted_from, deferred_root};
use crate::low::{LowShardId, RunModel, ViewModel};
use crate::mid::{
    GemmDistribution, GemmOrientation, MidOperation, OperatorDispatch, OperatorPlan,
    PointwiseInputMapping, TileKernelSpec,
};
use crate::pointwise::is_empty;
use crate::pointwise_coverage::{
    computes_from_inputs, lemma_pointwise_computes_with_its_inputs,
};
use crate::product_operands::{
    computes_from, contains_range, lemma_products_compute_with_their_right_operand, ProductUse,
};
use crate::reduction_operands::{
    brought_operand, lemma_divided_products_compute_with_their_operands, reduces, staying_operand,
    Reduction,
};
use crate::reduction_sum::Division;
use crate::region::lower_operator;
use crate::repeat_bindings::values_known;
use crate::schedule::follows;
use crate::state::StateModel;
use crate::target::Target;
use crate::tensor::AMP_INNER_BLOCK;
use vstd::prelude::*;

verus! {

/// Every step of lowering keeps all shards of values known.
pub proof fn lemma_values_stay_known(s: StateModel, t: StateModel)
    requires
        values_known(s),
        follows(s, t),
    ensures
        values_known(t),
{
    reveal(follows);
    assert forall|v: int, k: int|
        0 <= v < t.canonical.len() && 0 <= k < t.canonical[v].len() implies (
    #[trigger] t.canonical[v][k]).0 < t.shards.len() by {
        assert(s.canonical[v][k].0 < s.shards.len());
    }
}

/// An operator planned as attention over blocks of keys attends to every block
/// for every shard of its result, with the kernels of its plan.
pub proof fn lemma_attention_operators_attend<M: Target>(
    target: &M,
    s: StateModel,
    operation: MidOperation,
    plan: OperatorPlan,
    query_key: TileKernelSpec,
    probability_value: TileKernelSpec,
    sizes: AttentionSizes,
    i: int,
    block: int,
)
    requires
        values_known(s),
        operation.operator_plan == Some(plan),
        plan.dispatch == (OperatorDispatch::BlockedAttention {
            query_key,
            probability_value,
            query_block_rows: sizes.query_block_rows,
            key_block_rows: sizes.key_columns,
            padded_query_dimension: sizes.padded_query_dimension,
            padded_value_dimension: sizes.padded_value_dimension,
        }),
        operation.inputs@.len() == 3 ==> deferred_root(s, operation.inputs@[1]) is None,
    ensures
        match lower_operator(target, s, operation) {
            Ok(t) => {
                let key = operation.inputs@[1];
                let result = operation.results@[0];
                let rows = s.shards[s.canonical[key.0 as int][0].0 as int].tensor_type.shape[1];
                &&& operation.inputs@.len() == 3
                &&& operation.results@.len() == 1
                &&& key.0 < s.canonical.len() && s.canonical[key.0 as int].len() > 0
                &&& result.0 < s.canonical.len()
                &&& 0 <= i < s.canonical[result.0 as int].len() && 0 <= block && block
                    * AMP_INNER_BLOCK < rows ==> part_attends(
                    s,
                    t,
                    operation,
                    query_key@,
                    probability_value@,
                    sizes,
                    s.canonical[result.0 as int][i],
                    block,
                    rows <= (block + 1) * AMP_INNER_BLOCK,
                )
            },
            Err(_) => true,
        },
{
    lemma_attention_computes_with_its_inputs(
        target,
        s,
        operation,
        query_key@,
        probability_value@,
        sizes,
        plan.requirements@,
        i,
        block,
    );
}

/// An operator planned as attention over all keys at once attends to all of them
/// for every shard of its result, with the kernels of its plan.
pub proof fn lemma_whole_attention_operators_attend<M: Target>(
    target: &M,
    s: StateModel,
    operation: MidOperation,
    plan: OperatorPlan,
    query_key: TileKernelSpec,
    probability_value: TileKernelSpec,
    sizes: AttentionSizes,
    i: int,
)
    requires
        values_known(s),
        operation.operator_plan == Some(plan),
        plan.dispatch == (OperatorDispatch::MaterializedAttention {
            query_key,
            probability_value,
            query_block_rows: sizes.query_block_rows,
            padded_key_rows: sizes.key_columns,
            padded_query_dimension: sizes.padded_query_dimension,
            padded_value_dimension: sizes.padded_value_dimension,
        }),
        operation.inputs@.len() == 3 ==> deferred_root(s, operation.inputs@[1]) is None,
    ensures
        match lower_operator(target, s, operation) {
            Ok(t) => {
                let key = operation.inputs@[1];
                let result = operation.results@[0];
                let rows = s.shards[s.canonical[key.0 as int][0].0 as int].tensor_type.shape[1];
                &&& operation.inputs@.len() == 3
                &&& operation.results@.len() == 1
                &&& key.0 < s.canonical.len() && s.canonical[key.0 as int].len() > 0
                &&& result.0 < s.canonical.len()
                &&& 0 <= i < s.canonical[result.0 as int].len() ==> part_attends_to_all(
                    target,
                    s,
                    t,
                    operation,
                    query_key@,
                    probability_value@,
                    sizes,
                    s.canonical[result.0 as int][i],
                    rows,
                )
            },
            Err(_) => true,
        },
{
    lemma_whole_attention_computes_with_its_inputs(
        target,
        s,
        operation,
        query_key@,
        probability_value@,
        sizes,
        plan.requirements@,
        i,
    );
}

/// An operator planned as a product with its outputs in place computes every
/// block of its result from its operands: the first pass with the kernel that
/// starts the sums, the others with the one that adds to them. Every run that it
/// schedules reads the first operand on its own tile.
pub proof fn lemma_product_operators_compute_every_block<M: Target>(
    target: &M,
    s: StateModel,
    operation: MidOperation,
    plan: OperatorPlan,
    initialize: TileKernelSpec,
    accumulate: TileKernelSpec,
    inner_block: u32,
    output_column_block: u32,
    orientation: GemmOrientation,
    pass: int,
    column: int,
    output: LowShardId,
    r: int,
)
    requires
        operation.operator_plan == Some(plan),
        plan.dispatch == (OperatorDispatch::BlockedGemm {
            initialize,
            accumulate,
            inner_block,
            output_column_block,
            distribution: GemmDistribution::OutputStationary,
            orientation,
        }),
        0 <= pass,
        0 <= column,
    ensures
        match lower_operator(target, s, operation) {
            Err(_) => true,
            Ok(t) => {
                let left = operation.inputs@[0];
                let result = operation.results@[0];
                let first_left = s.shards[s.canonical[left.0 as int][0].0 as int];
                let first_output = s.shards[s.canonical[result.0 as int][0].0 as int];
                let inner = (pass * inner_block, (pass + 1) * inner_block);
                let columns = (
                    column * output_column_block,
                    (column + 1) * output_column_block,
                );
                &&& orientation == GemmOrientation::Normal
                &&& operation.inputs@.len() == 2
                &&& operation.results@.len() == 1
                &&& converted_from(s, left) is None && s.kernel_runs.len() <= r
                    < t.kernel_runs.len() ==> left_read(t, t, left, r)
                &&& s.canonical[result.0 as int].contains(output) && output.0 < s.shards.len()
                    && s.shards[output.0 as int].extents.len()
                    == first_output.tensor_type.shape.len() && contains_range(
                    s.shards[output.0 as int].extents.last(),
                    columns.0,
                    columns.1,
                ) && padded_axis(target, first_left) is Ok && padded_axis(
                    target,
                    first_output,
                ) is Ok && inner.1 <= padded_axis(target, first_left)->Ok_0 && columns.1
                    <= padded_axis(target, first_output)->Ok_0
                    && first_output.tensor_type.shape.len() <= usize::MAX
                    && first_left.tensor_type.shape.len() <= usize::MAX ==> exists|used: ProductUse|
                    #[trigger] computes_from(
                        target,
                        s,
                        t,
                        operation,
                        (GemmKernels {
                            initialize: initialize@,
                            accumulate: accumulate@,
                            requirements: plan.requirements@,
                        }),
                        output,
                        inner,
                        columns,
                        used,
                    )
            },
        },
{
    let kernels = GemmKernels {
        initialize: initialize@,
        accumulate: accumulate@,
        requirements: plan.requirements@,
    };
    lemma_products_compute_with_their_right_operand(
        target,
        s,
        operation,
        kernels,
        inner_block,
        output_column_block,
        orientation,
        pass,
        column,
        output,
    );
    if operation.inputs@.len() == 2 && converted_from(s, operation.inputs@[0]) is None {
        lemma_products_read_their_left_operand(
            target,
            s,
            operation,
            kernels,
            inner_block,
            output_column_block,
            orientation,
            r,
        );
    }
}

/// An operator planned as a product with a divided inner axis is computed from
/// its operands, as its plan divides it.
pub proof fn lemma_divided_product_operators_reduce<M: Target>(
    target: &M,
    s: StateModel,
    operation: MidOperation,
    plan: OperatorPlan,
    initialize: TileKernelSpec,
    accumulate: TileKernelSpec,
    division: Division,
)
    requires
        operation.operator_plan == Some(plan),
        plan.dispatch == (OperatorDispatch::BlockedGemm {
            initialize,
            accumulate,
            inner_block: division.inner_block,
            output_column_block: division.column_block,
            distribution: GemmDistribution::ParallelReduction {
                row_partitions: division.partitions.rows,
                column_partitions: division.partitions.columns,
                inner_partitions: division.partitions.inner,
                result_row_partitions: division.partitions.result_rows,
                result_column_partitions: division.partitions.result_columns,
                reduction_staging: division.staging,
            },
            orientation: division.orientation,
        }),
    ensures
        match lower_operator(target, s, operation) {
            Ok(t) => exists|r: Reduction| #[trigger]
                reduces(
                    target,
                    s,
                    t,
                    operation,
                    (GemmKernels {
                        initialize: initialize@,
                        accumulate: accumulate@,
                        requirements: plan.requirements@,
                    }),
                    division,
                    staying_operand(operation, division.orientation),
                    brought_operand(operation, division.orientation),
                    r,
                ),
            Err(_) => true,
        },
{
    lemma_divided_products_compute_with_their_operands(
        target,
        s,
        operation,
        GemmKernels {
            initialize: initialize@,
            accumulate: accumulate@,
            requirements: plan.requirements@,
        },
        division,
    );
}

/// A pointwise operator computes every shard of its result that is not empty
/// from its inputs in their order, with the kernel of its plan.
pub proof fn lemma_pointwise_operators_compute_every_shard<M: Target>(
    target: &M,
    s: StateModel,
    operation: MidOperation,
    plan: OperatorPlan,
    kernel: TileKernelSpec,
    input_mapping: PointwiseInputMapping,
    o: int,
)
    requires
        operation.operator_plan == Some(plan),
        plan.dispatch == (OperatorDispatch::Pointwise { kernel, input_mapping }),
        operation.results@.len() == 1,
        operation.results@[0].0 < s.canonical.len(),
        0 <= o < s.canonical[operation.results@[0].0 as int].len(),
        ({
            let output = s.canonical[operation.results@[0].0 as int][o];
            output.0 < s.shards.len() && !is_empty(s.shards[output.0 as int].extents)
        }),
    ensures
        match lower_operator(target, s, operation) {
            Err(_) => true,
            Ok(t) => exists|run: RunModel, views: Seq<ViewModel>| #[trigger]
                computes_from_inputs(
                    t,
                    operation,
                    kernel@,
                    input_mapping,
                    s.canonical[operation.results@[0].0 as int][o],
                    run,
                    views,
                ),
        },
{
    lemma_pointwise_computes_with_its_inputs(
        s,
        operation,
        kernel@,
        input_mapping,
        plan.requirements@,
        o,
    );
}

} // verus!
