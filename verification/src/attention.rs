//! Attention in blocks of keys, and attention over all keys at once.

use crate::attention_panels::{
    broadcast_panels_from, prepare_attention_blocks, AttentionBlockModel, BlockPlan,
    PreparedAttentionBlock,
};
use crate::attention_tasks::{
    build_attention_tasks, materialize_queries, AttentionBufferShape, AttentionTask,
};
use crate::extents::{max, max_u32};
use crate::fragments::{div_ceil, div_ceil_u32};
use crate::kernels::append_kernel;
use crate::lookup::{deferred_root, value_shards};
use crate::low::{
    one_operand, two_operands, ExchangeOrder, LowLoweringError, LowLoweringResult, LowShardId,
    ShardModel, ShardView, ViewModel, WorkProvenance, WorkReason,
};
use crate::mid::{
    KernelModel, KernelSpec, MidOperation, MidValueId, OperatorRequirements,
    OperatorRequirementsModel, TileKernelSpec,
};
use crate::model::{Model, deep, group_deep};
use crate::order::Groups;
use crate::phase::{
    add_transfer, add_transfer_to, append_ordered_phase, transfers_nonempty,
};
use crate::pointwise::{new_operator_run, operator_run};
use crate::state::{
    did, full_view, narrow_view, shard_of, LoweringState, StateModel, Step, StepWith, Transfers,
    TransfersModel,
};
use crate::target::Target;
use crate::tensor::{AMP_COLUMN_MICRO, AMP_INNER_BLOCK};
use vstd::prelude::*;

verus! {

/// What all runs of an attention have in common. `K` is the type of kernels,
/// `R` that of requirements.
#[derive(Debug)]
pub struct AttentionRuns<K, R> {
    pub provenance: WorkProvenance,
    pub query_key: K,
    pub probability_value: K,
    pub requirements: R,
    pub padded_value_dimension: u32,
    pub padded_key_columns: u32,
}

/// Abstract value of [`AttentionRuns`].
pub type AttentionRunsModel = AttentionRuns<KernelModel, OperatorRequirementsModel>;

impl<'a> View for AttentionRuns<&'a TileKernelSpec, &'a OperatorRequirements> {
    type V = AttentionRunsModel;

    open spec fn view(&self) -> AttentionRunsModel {
        AttentionRuns {
            provenance: self.provenance,
            query_key: self.query_key@,
            probability_value: self.probability_value@,
            requirements: self.requirements@,
            padded_value_dimension: self.padded_value_dimension,
            padded_key_columns: self.padded_key_columns,
        }
    }
}

/// The first columns of a matrix.
pub open spec fn columns_view(shards: Seq<ShardModel>, id: LowShardId, columns: u32) -> Result<
    ViewModel,
    LowLoweringError,
> {
    narrow_view(shards, id, seq![(1usize, 0u32, columns)])
}

/// Computes the scores of a task from its queries and keys, and the weights
/// from the scores.
pub open spec fn append_scores(
    s: StateModel,
    runs: AttentionRunsModel,
    task: AttentionTask,
    key: LowShardId,
    key_columns: u32,
) -> Step {
    match columns_view(s.shards, task.scratch, runs.padded_key_columns) {
        Err(e) => Err(e),
        Ok(scores) => match full_view(s.shards, task.query) {
            Err(e) => Err(e),
            Ok(query) => match full_view(s.shards, key) {
                Err(e) => Err(e),
                Ok(keys) => match append_kernel(
                    s,
                    task.tile,
                    operator_run(
                        runs.provenance,
                        runs.query_key,
                        seq![seq![query], seq![keys]],
                        scores,
                        runs.requirements,
                    ),
                ) {
                    Err(e) => Err(e),
                    Ok(a) => match full_view(a.shards, task.weights) {
                        Err(e) => Err(e),
                        Ok(weights) => append_kernel(
                            a,
                            task.tile,
                            operator_run(
                                runs.provenance,
                                KernelSpec::AttentionSoftmax {
                                    head_dimension: task.query_dimension,
                                    key_columns,
                                    padded_key_columns: runs.padded_key_columns,
                                },
                                seq![seq![scores]],
                                weights,
                                runs.requirements,
                            ),
                        ),
                    },
                },
            },
        },
    }
}

/// Weighs the values of a task, and merges them into its output.
pub open spec fn append_weighted_values(
    s: StateModel,
    runs: AttentionRunsModel,
    task: AttentionTask,
    value: LowShardId,
    initial: bool,
    final_block: bool,
) -> Step {
    match columns_view(s.shards, task.weights, runs.padded_key_columns) {
        Err(e) => Err(e),
        Ok(probabilities) => match columns_view(
            s.shards,
            task.scratch,
            runs.padded_value_dimension,
        ) {
            Err(e) => Err(e),
            Ok(block) => match full_view(s.shards, value) {
                Err(e) => Err(e),
                Ok(values) => match append_kernel(
                    s,
                    task.tile,
                    operator_run(
                        runs.provenance,
                        runs.probability_value,
                        seq![seq![probabilities], seq![values]],
                        block,
                        runs.requirements,
                    ),
                ) {
                    Err(e) => Err(e),
                    Ok(a) => match full_view(a.shards, task.weights) {
                        Err(e) => Err(e),
                        Ok(weights) => match full_view(a.shards, task.output) {
                            Err(e) => Err(e),
                            Ok(output) => append_kernel(
                                a,
                                task.tile,
                                operator_run(
                                    runs.provenance,
                                    KernelSpec::AttentionMerge {
                                        value_dimension: task.value_dimension,
                                        padded_value_dimension: runs.padded_value_dimension,
                                        key_block_columns: runs.padded_key_columns,
                                        initial,
                                        final_block,
                                    },
                                    seq![seq![block], seq![weights]],
                                    output,
                                    runs.requirements,
                                ),
                            ),
                        },
                    },
                },
            },
        },
    }
}

/// The exchange of keys and values, and the kernels, of an attention.
pub open spec fn attention_provenance(operation: MidOperation) -> (WorkProvenance, WorkProvenance) {
    (
        WorkProvenance {
            operation: operation.source,
            value: Some(operation.inputs@[1]),
            reason: WorkReason::OperatorInputs,
        },
        WorkProvenance {
            operation: operation.source,
            value: Some(operation.results@[0]),
            reason: WorkReason::OperatorKernel,
        },
    )
}

impl LoweringState {
    fn columns_view(&self, id: LowShardId, columns: u32) -> (r: LowLoweringResult<ShardView>)
        ensures
            crate::state::found(r, columns_view(self@.shards, id, columns)),
    {
        let mut ranges: Vec<(usize, u32, u32)> = Vec::new();
        ranges.push((1, 0, columns));
        assert(ranges@ =~= seq![(1usize, 0u32, columns)]);
        self.narrow_view(id, ranges.as_slice())
    }

    pub(crate) fn append_scores(
        &mut self,
        runs: &AttentionRuns<&TileKernelSpec, &OperatorRequirements>,
        task: AttentionTask,
        key: LowShardId,
        key_columns: u32,
    ) -> (r: LowLoweringResult<()>)
        ensures
            did(r, final(self)@, append_scores(old(self)@, runs@, task, key, key_columns)),
    {
        let scores = self.columns_view(task.scratch, runs.padded_key_columns)?;
        let query = self.full_view(task.query)?;
        let keys = self.full_view(key)?;
        let run = new_operator_run(
            runs.provenance,
            runs.query_key.duplicate(),
            two_operands(query, keys),
            scores.duplicate(),
            runs.requirements,
        );
        self.append_kernel(task.tile, run)?;
        let weights = self.full_view(task.weights)?;
        let softmax = new_operator_run(
            runs.provenance,
            KernelSpec::AttentionSoftmax {
                head_dimension: task.query_dimension,
                key_columns,
                padded_key_columns: runs.padded_key_columns,
            },
            one_operand(scores),
            weights,
            runs.requirements,
        );
        self.append_kernel(task.tile, softmax)
    }

    pub(crate) fn append_weighted_values(
        &mut self,
        runs: &AttentionRuns<&TileKernelSpec, &OperatorRequirements>,
        task: AttentionTask,
        value: LowShardId,
        initial: bool,
        final_block: bool,
    ) -> (r: LowLoweringResult<()>)
        ensures
            did(
                r,
                final(self)@,
                append_weighted_values(
                    old(self)@,
                    runs@,
                    task,
                    value,
                    initial,
                    final_block,
                ),
            ),
    {
        let probabilities = self.columns_view(task.weights, runs.padded_key_columns)?;
        let block = self.columns_view(task.scratch, runs.padded_value_dimension)?;
        let values = self.full_view(value)?;
        let run = new_operator_run(
            runs.provenance,
            runs.probability_value.duplicate(),
            two_operands(probabilities, values),
            block.duplicate(),
            runs.requirements,
        );
        self.append_kernel(task.tile, run)?;
        let weights = self.full_view(task.weights)?;
        let output = self.full_view(task.output)?;
        let merge = new_operator_run(
            runs.provenance,
            KernelSpec::AttentionMerge {
                value_dimension: task.value_dimension,
                padded_value_dimension: runs.padded_value_dimension,
                key_block_columns: runs.padded_key_columns,
                initial,
                final_block,
            },
            two_operands(block, weights),
            output,
            runs.requirements,
        );
        self.append_kernel(task.tile, merge)
    }
}

// ---------------------------------------------------------------- blocked

/// Keys, values and the number of keys that a task reads in one block.
pub type TaskSources = (LowShardId, LowShardId, u32);

/// The first listed shard from `k` on that holds the head's block.
pub open spec fn block_source_from(
    shards: Seq<ShardModel>,
    ids: Seq<LowShardId>,
    head: u32,
    block_start: u32,
    k: int,
) -> Result<LowShardId, LowLoweringError>
    decreases ids.len() - k,
{
    if k >= ids.len() {
        Err(LowLoweringError::InvalidOperatorPlan)
    } else if ids[k].0 < shards.len() && shards[ids[k].0 as int].extents.len() >= 2
        && shards[ids[k].0 as int].extents[0].start == head
        && shards[ids[k].0 as int].extents[1].start == block_start {
        Ok(ids[k])
    } else {
        block_source_from(shards, ids, head, block_start, k + 1)
    }
}

/// Makes a block resident: the shard itself on its own tile, and else staging
/// that receives it.
pub open spec fn resident_block(
    shards: Seq<ShardModel>,
    source: LowShardId,
    staging: LowShardId,
    tile: u16,
    transfers: TransfersModel,
) -> Result<(TransfersModel, LowShardId), LowLoweringError> {
    match shard_of(shards, source) {
        Err(e) => Err(e),
        Ok(from) => if from.tile == tile {
            Ok((transfers, source))
        } else {
            match full_view(shards, staging) {
                Err(e) => Err(e),
                Ok(into) => Ok(
                    (
                        add_transfer(
                            transfers,
                            ViewModel { shard: source, extents: from.extents },
                            into,
                        ),
                        staging,
                    ),
                ),
            }
        },
    }
}

/// `done` followed by the sources of the tasks from `k` on in one block.
pub open spec fn block_sources_from(
    shards: Seq<ShardModel>,
    keys: Seq<LowShardId>,
    values: Seq<LowShardId>,
    tasks: Seq<AttentionTask>,
    block_start: u32,
    k: int,
    transfers: TransfersModel,
    done: Seq<TaskSources>,
) -> Result<(TransfersModel, Seq<TaskSources>), LowLoweringError>
    decreases tasks.len() - k,
{
    if k >= tasks.len() {
        Ok((transfers, done))
    } else {
        match block_source_from(shards, keys, tasks[k].head, block_start, 0) {
            Err(e) => Err(e),
            Ok(key) => match block_source_from(shards, values, tasks[k].head, block_start, 0) {
                Err(e) => Err(e),
                Ok(value) => match resident_block(
                    shards,
                    key,
                    tasks[k].key_staging,
                    tasks[k].tile,
                    transfers,
                ) {
                    Err(e) => Err(e),
                    Ok((more, key_operand)) => match resident_block(
                        shards,
                        value,
                        tasks[k].value_staging,
                        tasks[k].tile,
                        more,
                    ) {
                        Err(e) => Err(e),
                        Ok((most, value_operand)) => block_sources_from(
                            shards,
                            keys,
                            values,
                            tasks,
                            block_start,
                            k + 1,
                            most,
                            done.push(
                                (
                                    key_operand,
                                    value_operand,
                                    valid_keys(shards[key.0 as int], block_start),
                                ),
                            ),
                        ),
                    },
                },
            },
        }
    }
}

/// Keys of a shard from the start of a block on.
pub open spec fn valid_keys(shard: ShardModel, block_start: u32) -> u32 {
    if shard.extents[1].logical_end >= block_start {
        (shard.extents[1].logical_end - block_start) as u32
    } else {
        0
    }
}

/// Brings one block of keys and values to the tasks.
pub open spec fn block_operands<M: Target>(
    target: &M,
    s: StateModel,
    keys: Seq<LowShardId>,
    values: Seq<LowShardId>,
    tasks: Seq<AttentionTask>,
    prepared: Option<AttentionBlockModel>,
    block_start: u32,
    provenance: WorkProvenance,
) -> StepWith<Seq<TaskSources>> {
    match prepared {
        Some(block) => match broadcast_panels_from(
            target,
            s,
            block.key_panels,
            0,
            0,
            Seq::empty(),
        ) {
            Err(e) => Err(e),
            Ok((a, some)) => match broadcast_panels_from(
                target,
                a,
                block.value_panels,
                0,
                0,
                some,
            ) {
                Err(e) => Err(e),
                Ok((b, transfers)) => match append_ordered_phase(
                    b,
                    transfers,
                    provenance,
                    ExchangeOrder::Semantic,
                ) {
                    Err(e) => Err(e),
                    Ok(c) => Ok(
                        (
                            c,
                            Seq::new(
                                tasks.len(),
                                |i: int|
                                    (
                                        tasks[i].key_staging,
                                        tasks[i].value_staging,
                                        block.valid_rows,
                                    ),
                            ),
                        ),
                    ),
                },
            },
        },
        None => match block_sources_from(
            s.shards,
            keys,
            values,
            tasks,
            block_start,
            0,
            Seq::empty(),
            Seq::empty(),
        ) {
            Err(e) => Err(e),
            Ok((transfers, sources)) => match append_ordered_phase(
                s,
                transfers,
                provenance,
                ExchangeOrder::Semantic,
            ) {
                Err(e) => Err(e),
                Ok(next) => Ok((next, sources)),
            },
        },
    }
}

/// Runs the tasks from `k` on over one block.
pub open spec fn attend_from(
    s: StateModel,
    runs: AttentionRunsModel,
    tasks: Seq<AttentionTask>,
    sources: Seq<TaskSources>,
    initial: bool,
    final_block: bool,
    k: int,
) -> Step
    decreases tasks.len() - k,
{
    if k >= tasks.len() {
        Ok(s)
    } else {
        match append_scores(s, runs, tasks[k], sources[k].0, sources[k].2) {
            Err(e) => Err(e),
            Ok(a) => match append_weighted_values(
                a,
                runs,
                tasks[k],
                sources[k].1,
                initial,
                final_block,
            ) {
                Err(e) => Err(e),
                Ok(b) => attend_from(
                    b,
                    runs,
                    tasks,
                    sources,
                    initial,
                    final_block,
                    k + 1,
                ),
            },
        }
    }
}

/// Runs the blocks from `block` on.
pub open spec fn blocks_from<M: Target>(
    target: &M,
    s: StateModel,
    runs: AttentionRunsModel,
    exchange: WorkProvenance,
    keys: Seq<LowShardId>,
    values: Seq<LowShardId>,
    tasks: Seq<AttentionTask>,
    prepared: Option<Seq<AttentionBlockModel>>,
    block: int,
    blocks: int,
) -> Step
    decreases blocks - block,
{
    if block >= blocks {
        Ok(s)
    } else {
        let panels = match prepared {
            Some(all) => Some(all[block]),
            None => None,
        };
        match block_operands(
            target,
            s,
            keys,
            values,
            tasks,
            panels,
            (block * AMP_INNER_BLOCK) as u32,
            exchange,
        ) {
            Err(e) => Err(e),
            Ok((a, sources)) => match attend_from(
                a,
                runs,
                tasks,
                sources,
                block == 0,
                block + 1 == blocks,
                0,
            ) {
                Err(e) => Err(e),
                Ok(b) => blocks_from(
                    target,
                    b,
                    runs,
                    exchange,
                    keys,
                    values,
                    tasks,
                    prepared,
                    block + 1,
                    blocks,
                ),
            },
        }
    }
}

/// The parameters of a planned attention.
#[derive(Clone, Copy, Debug, PartialEq, Eq, Structural)]
pub struct AttentionSizes {
    pub query_block_rows: u32,
    /// Keys of one block, or all keys with padding.
    pub key_columns: u32,
    pub padded_query_dimension: u32,
    pub padded_value_dimension: u32,
}

/// Rows of the tensor that a shard belongs to.
pub open spec fn tensor_rows(shards: Seq<ShardModel>, id: LowShardId) -> Result<
    u32,
    LowLoweringError,
> {
    match shard_of(shards, id) {
        Err(e) => Err(e),
        Ok(shard) => if shard.tensor_type.shape.len() < 2 {
            Err(LowLoweringError::InvalidOperatorPlan)
        } else {
            Ok(shard.tensor_type.shape[1])
        },
    }
}

/// How deferred keys and values are packed.
pub open spec fn block_plan(
    operation: MidOperation,
    tasks: Seq<AttentionTask>,
    sizes: AttentionSizes,
    key_rows: u32,
) -> BlockPlan {
    BlockPlan {
        key: operation.inputs@[1],
        value: operation.inputs@[2],
        key_rows,
        block_rows: AMP_INNER_BLOCK,
        query_dimension: tasks[0].query_dimension,
        value_dimension: tasks[0].value_dimension,
        padded_query_dimension: sizes.padded_query_dimension,
        padded_value_dimension: sizes.padded_value_dimension,
    }
}

/// Prepares the queries of an attention, and its keys and values where they
/// are deferred.
pub open spec fn prepare_operands<M: Target>(
    target: &M,
    s: StateModel,
    operation: MidOperation,
    tasks: Seq<AttentionTask>,
    sizes: AttentionSizes,
    key_rows: u32,
) -> StepWith<Option<Seq<AttentionBlockModel>>> {
    let exchange = attention_provenance(operation).0;
    match materialize_queries(target, s, operation.inputs@[0], tasks, exchange) {
        Err(e) => Err(e),
        Ok(a) => if deferred_root(a, operation.inputs@[1]) is Some {
            match prepare_attention_blocks(
                target,
                a,
                block_plan(operation, tasks, sizes, key_rows),
                tasks,
                exchange,
            ) {
                Err(e) => Err(e),
                Ok((b, blocks)) => Ok((b, Some(blocks))),
            }
        } else {
            Ok((a, None))
        },
    }
}

/// Memory of an attention over blocks of keys.
pub open spec fn blocked_shape(sizes: AttentionSizes) -> AttentionBufferShape {
    AttentionBufferShape {
        query_block_rows: sizes.query_block_rows,
        logical_staging_rows: sizes.key_columns,
        physical_staging_rows: sizes.key_columns,
        scratch_columns: max(sizes.padded_value_dimension, sizes.key_columns),
        state_columns: (sizes.key_columns + AMP_COLUMN_MICRO) as u32,
        padded_query_dimension: sizes.padded_query_dimension,
        padded_value_dimension: sizes.padded_value_dimension,
        reuse_key_staging_for_state: false,
    }
}

/// Attention that merges the results of one block of keys after the other.
pub open spec fn lower_blocked_attention<M: Target>(
    target: &M,
    s: StateModel,
    operation: MidOperation,
    query_key: KernelModel,
    probability_value: KernelModel,
    sizes: AttentionSizes,
    requirements: OperatorRequirementsModel,
) -> Step {
    if operation.inputs@.len() != 3 {
        Err(LowLoweringError::InvalidOperatorPlan)
    } else if operation.results@.len() != 1 {
        Err(LowLoweringError::ResultArity)
    } else if sizes.key_columns != AMP_INNER_BLOCK || sizes.query_block_rows == 0 {
        Err(LowLoweringError::InvalidOperatorPlan)
    } else {
        match value_shards(s, operation.inputs@[1]) {
            Err(e) => Err(e),
            Ok(keys) => match value_shards(s, operation.inputs@[2]) {
                Err(e) => Err(e),
                Ok(values) => if keys.len() != values.len() || (deferred_root(
                    s,
                    operation.inputs@[1],
                ) is Some) != (deferred_root(s, operation.inputs@[2]) is Some) {
                    Err(LowLoweringError::InvalidOperatorPlan)
                } else {
                    match build_attention_tasks(
                        target,
                        s,
                        operation.inputs@[0],
                        operation.results@[0],
                        blocked_shape(sizes),
                    ) {
                        Err(e) => Err(e),
                        Ok((a, tasks)) => match tensor_rows(a.shards, keys[0]) {
                            Err(e) => Err(e),
                            Ok(key_rows) => if key_rows == 0 {
                                Err(LowLoweringError::InvalidOperatorPlan)
                            } else {
                                match prepare_operands(
                                    target,
                                    a,
                                    operation,
                                    tasks,
                                    sizes,
                                    key_rows,
                                ) {
                                    Err(e) => Err(e),
                                    Ok((b, prepared)) => blocks_from(
                                        target,
                                        b,
                                        AttentionRuns {
                                            provenance: attention_provenance(operation).1,
                                            query_key,
                                            probability_value,
                                            requirements,
                                            padded_value_dimension: sizes.padded_value_dimension,
                                            padded_key_columns: sizes.key_columns,
                                        },
                                        attention_provenance(operation).0,
                                        keys,
                                        values,
                                        tasks,
                                        prepared,
                                        0,
                                        div_ceil(key_rows as int, AMP_INNER_BLOCK as int),
                                    ),
                                }
                            },
                        },
                    }
                },
            },
        }
    }
}

proof fn lemma_prepared_blocks<M: Target>(
    target: &M,
    s: StateModel,
    plan: BlockPlan,
    keys: Seq<crate::order::GroupModel<LowShardId>>,
    values: Seq<crate::order::GroupModel<LowShardId>>,
    block: int,
    gathers: crate::attention_panels::Gathers,
    done: Seq<AttentionBlockModel>,
    provenance: WorkProvenance,
)
    requires
        0 <= block <= div_ceil(plan.key_rows as int, plan.block_rows as int),
        done.len() == block,
    ensures
        crate::attention_panels::prepare_blocks_from(
            target,
            s,
            plan,
            keys,
            values,
            block,
            gathers,
            done,
            provenance,
        ) matches Ok((_, (_, blocks))) ==> blocks.len() == div_ceil(
            plan.key_rows as int,
            plan.block_rows as int,
        ),
    decreases div_ceil(plan.key_rows as int, plan.block_rows as int) - block,
{
    if block < div_ceil(plan.key_rows as int, plan.block_rows as int) {
        match crate::attention_panels::prepare_block(
            target,
            s,
            plan,
            keys,
            values,
            block,
            gathers,
            provenance,
        ) {
            Err(_) => {},
            Ok((next, (more, prepared))) => {
                lemma_prepared_blocks(
                    target,
                    next,
                    plan,
                    keys,
                    values,
                    block + 1,
                    more,
                    done.push(prepared),
                    provenance,
                );
            },
        }
    }
}

proof fn lemma_tasks_of_outputs<M: Target>(
    target: &M,
    s: StateModel,
    query: MidValueId,
    outputs: Seq<LowShardId>,
    row_block: u16,
    shape: AttentionBufferShape,
    k: int,
    done: Seq<AttentionTask>,
)
    requires
        0 <= k <= outputs.len(),
        done.len() == k,
    ensures
        crate::attention_tasks::attention_tasks_from(
            target,
            s,
            query,
            outputs,
            row_block,
            shape,
            k,
            done,
        ) matches Ok((_, tasks)) ==> tasks.len() == outputs.len(),
    decreases outputs.len() - k,
{
    if k < outputs.len() {
        match crate::attention_tasks::attention_task(
            target,
            s,
            query,
            outputs[k],
            row_block,
            shape,
        ) {
            Err(_) => {},
            Ok((next, task)) => {
                lemma_tasks_of_outputs(
                    target,
                    next,
                    query,
                    outputs,
                    row_block,
                    shape,
                    k + 1,
                    done.push(task),
                );
            },
        }
    }
}

/// Every output shard has its attention task.
pub proof fn lemma_tasks_not_empty<M: Target>(
    target: &M,
    s: StateModel,
    query: MidValueId,
    result: MidValueId,
    shape: AttentionBufferShape,
)
    ensures
        build_attention_tasks(target, s, query, result, shape) matches Ok((_, tasks))
            ==> tasks.len() > 0 && tasks.len() == value_shards(s, result)->Ok_0.len(),
{
    if shape.physical_staging_rows <= u16::MAX && value_shards(s, result) is Ok {
        lemma_tasks_of_outputs(
            target,
            s,
            query,
            value_shards(s, result)->Ok_0,
            shape.physical_staging_rows as u16,
            shape,
            0,
            Seq::empty(),
        );
    }
}

/// What packed blocks there are, if blocks are packed.
pub open spec fn blocks_are(
    r: Option<Vec<PreparedAttentionBlock>>,
    expected: Option<Seq<AttentionBlockModel>>,
) -> bool {
    match r {
        Some(blocks) => expected == Some(deep(blocks@)),
        None => expected is None,
    }
}

impl LoweringState {
    pub(crate) fn tensor_rows(&self, id: LowShardId) -> (r: LowLoweringResult<u32>)
        ensures
            r == tensor_rows(self@.shards, id),
    {
        let shard = self.shard(id)?;
        if shard.tensor_type.shape.0.len() < 2 {
            Err(LowLoweringError::InvalidOperatorPlan)
        } else {
            Ok(shard.tensor_type.shape.0[1])
        }
    }

    pub(crate) fn prepare_operands<M: Target>(
        &mut self,
        target: &M,
        operation: &MidOperation,
        tasks: &Vec<AttentionTask>,
        sizes: AttentionSizes,
        key_rows: u32,
    ) -> (r: LowLoweringResult<Option<Vec<PreparedAttentionBlock>>>)
        requires
            operation.inputs@.len() == 3,
            operation.results@.len() == 1,
            tasks@.len() > 0,
        ensures
            match r {
                Ok(prepared) => {
                    let expected = prepare_operands(
                        target,
                        old(self)@,
                        *operation,
                        tasks@,
                        sizes,
                        key_rows,
                    );
                    &&& expected is Ok
                    &&& expected->Ok_0.0 == final(self)@
                    &&& blocks_are(prepared, expected->Ok_0.1)
                    &&& prepared matches Some(blocks) ==> blocks@.len() == div_ceil(
                        key_rows as int,
                        AMP_INNER_BLOCK as int,
                    )
                },
                Err(e) => prepare_operands(
                    target,
                    old(self)@,
                    *operation,
                    tasks@,
                    sizes,
                    key_rows,
                ) == Err::<(StateModel, Option<Seq<AttentionBlockModel>>), LowLoweringError>(e),
            },
    {
        let exchange = WorkProvenance {
            operation: operation.source,
            value: Some(operation.inputs[1]),
            reason: WorkReason::OperatorInputs,
        };
        self.materialize_attention_queries(target, operation.inputs[0], tasks, exchange)?;
        if !self.has_deferred_value(operation.inputs[1]) {
            return Ok(None);
        }
        let plan = BlockPlan {
            key: operation.inputs[1],
            value: operation.inputs[2],
            key_rows,
            block_rows: AMP_INNER_BLOCK,
            query_dimension: tasks[0].query_dimension,
            value_dimension: tasks[0].value_dimension,
            padded_query_dimension: sizes.padded_query_dimension,
            padded_value_dimension: sizes.padded_value_dimension,
        };
        let ghost before = self@;
        let blocks = self.prepare_attention_blocks(target, plan, tasks, exchange)?;
        proof {
            lemma_prepared_blocks(
                target,
                before,
                plan,
                crate::attention_panels::staging_by_head(tasks@, true, tasks@.len() as int),
                crate::attention_panels::staging_by_head(tasks@, false, tasks@.len() as int),
                0,
                (Seq::empty(), Seq::empty()),
                Seq::empty(),
                exchange,
            );
        }
        Ok(Some(blocks))
    }

    fn block_source(&self, ids: &Vec<LowShardId>, head: u32, block_start: u32) -> (r:
        LowLoweringResult<LowShardId>)
        ensures
            r == block_source_from(self@.shards, ids@, head, block_start, 0),
            r matches Ok(id) ==> id.0 < self@.shards.len() && self@.shards[id.0 as int].extents.len()
                >= 2,
    {
        broadcast use group_deep;

        let mut k: usize = 0;
        while k < ids.len()
            invariant
                k <= ids@.len(),
                block_source_from(self@.shards, ids@, head, block_start, 0) == block_source_from(
                    self@.shards,
                    ids@,
                    head,
                    block_start,
                    k as int,
                ),
            decreases ids@.len() - k,
        {
            let id = ids[k];
            if (id.0 as usize) < self.shards.len() {
                let extents = &self.shards[id.0 as usize].extents;
                assert(extents@ == self@.shards[id.0 as int].extents);
                if extents.len() >= 2 && extents[0].start == head && extents[1].start
                    == block_start {
                    return Ok(id);
                }
            }
            k += 1;
        }
        Err(LowLoweringError::InvalidOperatorPlan)
    }

    fn resident_block(
        &self,
        source: LowShardId,
        staging: LowShardId,
        tile: u16,
        transfers: &mut Transfers,
    ) -> (r: LowLoweringResult<LowShardId>)
        ensures
            match r {
                Ok(operand) => resident_block(
                    self@.shards,
                    source,
                    staging,
                    tile,
                    old(transfers)@,
                ) == Ok::<(TransfersModel, LowShardId), LowLoweringError>(
                    (final(transfers)@, operand),
                ),
                Err(e) => resident_block(
                    self@.shards,
                    source,
                    staging,
                    tile,
                    old(transfers)@,
                ) == Err::<(TransfersModel, LowShardId), LowLoweringError>(e),
            },
            transfers_nonempty(old(transfers)@) ==> transfers_nonempty(final(transfers)@),
    {
        let from = self.full_view(source)?;
        if self.resides(source, tile) {
            return Ok(source);
        }
        let into = self.full_view(staging)?;
        add_transfer_to(transfers, from, into);
        Ok(staging)
    }

    fn block_operands<M: Target>(
        &mut self,
        target: &M,
        keys: &Vec<LowShardId>,
        values: &Vec<LowShardId>,
        tasks: &Vec<AttentionTask>,
        prepared: Option<&PreparedAttentionBlock>,
        block_start: u32,
        provenance: WorkProvenance,
    ) -> (r: LowLoweringResult<Vec<TaskSources>>)
        ensures
            ({
                let expected = block_operands(
                    target,
                    old(self)@,
                    keys@,
                    values@,
                    tasks@,
                    match prepared {
                        Some(block) => Some(block@),
                        None => None,
                    },
                    block_start,
                    provenance,
                );
                match r {
                    Ok(sources) => expected == Ok::<
                        (StateModel, Seq<TaskSources>),
                        LowLoweringError,
                    >((final(self)@, sources@)) && sources@.len() == tasks@.len(),
                    Err(e) => expected == Err::<(StateModel, Seq<TaskSources>), LowLoweringError>(
                        e,
                    ),
                }
            }),
    {
        let mut transfers: Transfers = Groups::new();
        let mut sources: Vec<TaskSources> = Vec::new();
        match prepared {
            Some(block) => {
                self.append_prepared_panel_broadcasts(
                    target,
                    &block.key_panels,
                    0,
                    &mut transfers,
                )?;
                self.append_prepared_panel_broadcasts(
                    target,
                    &block.value_panels,
                    0,
                    &mut transfers,
                )?;
                self.append_ordered_phase(&transfers, provenance, ExchangeOrder::Semantic)?;
                let ghost expected = Seq::new(
                    tasks@.len(),
                    |i: int|
                        (tasks@[i].key_staging, tasks@[i].value_staging, block@.valid_rows),
                );
                let mut k: usize = 0;
                while k < tasks.len()
                    invariant
                        k <= tasks@.len(),
                        sources@ == expected.take(k as int),
                    decreases tasks@.len() - k,
                {
                    sources.push((tasks[k].key_staging, tasks[k].value_staging, block.valid_rows));
                    k += 1;
                    assert(sources@ =~= expected.take(k as int));
                }
                assert(sources@ =~= expected);
            },
            None => {
                let mut k: usize = 0;
                while k < tasks.len()
                    invariant
                        k <= tasks@.len(),
                        sources@.len() == k,
                        block_sources_from(
                            self@.shards,
                            keys@,
                            values@,
                            tasks@,
                            block_start,
                            0,
                            Seq::empty(),
                            Seq::empty(),
                        ) == block_sources_from(
                            self@.shards,
                            keys@,
                            values@,
                            tasks@,
                            block_start,
                            k as int,
                            transfers@,
                            sources@,
                        ),
                        transfers_nonempty(transfers@),
                    decreases tasks@.len() - k,
                {
                    let task = tasks[k];
                    let key = self.block_source(keys, task.head, block_start)?;
                    let value = self.block_source(values, task.head, block_start)?;
                    let valid: u32 = self.shard(key)?.extents[1].logical_end.saturating_sub(
                        block_start,
                    );
                    let key_operand = self.resident_block(
                        key,
                        task.key_staging,
                        task.tile,
                        &mut transfers,
                    )?;
                    let value_operand = self.resident_block(
                        value,
                        task.value_staging,
                        task.tile,
                        &mut transfers,
                    )?;
                    sources.push((key_operand, value_operand, valid));
                    k += 1;
                }
                self.append_ordered_phase(&transfers, provenance, ExchangeOrder::Semantic)?;
            },
        }
        Ok(sources)
    }

    fn attend(
        &mut self,
        runs: &AttentionRuns<&TileKernelSpec, &OperatorRequirements>,
        tasks: &Vec<AttentionTask>,
        sources: &Vec<TaskSources>,
        initial: bool,
        final_block: bool,
    ) -> (r: LowLoweringResult<()>)
        requires
            sources@.len() == tasks@.len(),
        ensures
            did(
                r,
                final(self)@,
                attend_from(
                    old(self)@,
                    runs@,
                    tasks@,
                    sources@,
                    initial,
                    final_block,
                    0,
                ),
            ),
    {
        let ghost start = self@;
        let mut k: usize = 0;
        while k < tasks.len()
            invariant
                k <= tasks@.len(),
                attend_from(start, runs@, tasks@, sources@, initial, final_block, 0)
                    == attend_from(
                    self@,
                    runs@,
                    tasks@,
                    sources@,
                    initial,
                    final_block,
                    k as int,
                ),
            decreases tasks@.len() - k,
        {
            let (key, value, columns) = sources[k];
            self.append_scores(runs, tasks[k], key, columns)?;
            self.append_weighted_values(runs, tasks[k], value, initial, final_block)?;
            k += 1;
        }
        Ok(())
    }

    pub fn lower_blocked_attention<M: Target>(
        &mut self,
        target: &M,
        operation: &MidOperation,
        query_key: &TileKernelSpec,
        probability_value: &TileKernelSpec,
        sizes: AttentionSizes,
        requirements: &OperatorRequirements,
    ) -> (r: LowLoweringResult<()>)
        ensures
            did(
                r,
                final(self)@,
                lower_blocked_attention(
                    target,
                    old(self)@,
                    *operation,
                    query_key@,
                    probability_value@,
                    sizes,
                    requirements@,
                ),
            ),
    {
        broadcast use group_deep;

        if operation.inputs.len() != 3 {
            return Err(LowLoweringError::InvalidOperatorPlan);
        }
        if operation.results.len() != 1 {
            return Err(LowLoweringError::ResultArity);
        }
        if sizes.key_columns != AMP_INNER_BLOCK || sizes.query_block_rows == 0 {
            return Err(LowLoweringError::InvalidOperatorPlan);
        }
        let keys = self.value_shards(operation.inputs[1])?;
        let values = self.value_shards(operation.inputs[2])?;
        if keys.len() != values.len() || self.has_deferred_value(operation.inputs[1])
            != self.has_deferred_value(operation.inputs[2]) {
            return Err(LowLoweringError::InvalidOperatorPlan);
        }
        let shape = AttentionBufferShape {
            query_block_rows: sizes.query_block_rows,
            logical_staging_rows: sizes.key_columns,
            physical_staging_rows: sizes.key_columns,
            scratch_columns: max_u32(sizes.padded_value_dimension, sizes.key_columns),
            state_columns: sizes.key_columns + AMP_COLUMN_MICRO,
            padded_query_dimension: sizes.padded_query_dimension,
            padded_value_dimension: sizes.padded_value_dimension,
            reuse_key_staging_for_state: false,
        };
        proof {
            lemma_tasks_not_empty(
                target,
                self@,
                operation.inputs@[0],
                operation.results@[0],
                shape,
            );
        }
        let tasks = self.build_attention_tasks(
            target,
            operation.inputs[0],
            operation.results[0],
            shape,
        )?;
        let key_rows: u32 = self.tensor_rows(keys[0])?;
        if key_rows == 0 {
            return Err(LowLoweringError::InvalidOperatorPlan);
        }
        let prepared = self.prepare_operands(target, operation, &tasks, sizes, key_rows)?;
        let exchange = WorkProvenance {
            operation: operation.source,
            value: Some(operation.inputs[1]),
            reason: WorkReason::OperatorInputs,
        };
        let runs = AttentionRuns {
            provenance: WorkProvenance {
                operation: operation.source,
                value: Some(operation.results[0]),
                reason: WorkReason::OperatorKernel,
            },
            query_key,
            probability_value,
            requirements,
            padded_value_dimension: sizes.padded_value_dimension,
            padded_key_columns: sizes.key_columns,
        };
        let ghost model = match &prepared {
            Some(blocks) => Some(deep(blocks@)),
            None => None,
        };
        let ghost start = self@;
        let blocks: u32 = div_ceil_u32(key_rows, AMP_INNER_BLOCK);
        let mut block: u32 = 0;
        while block < blocks
            invariant
                block <= blocks,
                blocks_from(
                    target,
                    start,
                    runs@,
                    exchange,
                    keys@,
                    values@,
                    tasks@,
                    model,
                    0,
                    blocks as int,
                ) == blocks_from(
                    target,
                    self@,
                    runs@,
                    exchange,
                    keys@,
                    values@,
                    tasks@,
                    model,
                    block as int,
                    blocks as int,
                ),
            decreases blocks - block,
        {
            let panels = match &prepared {
                Some(all) => Some(&all[block as usize]),
                None => None,
            };
            let sources = self.block_operands(
                target,
                &keys,
                &values,
                &tasks,
                panels,
                block * AMP_INNER_BLOCK,
                exchange,
            )?;
            self.attend(&runs, &tasks, &sources, block == 0, block + 1 == blocks)?;
            block += 1;
        }
        Ok(())
    }
}

} // verus!
