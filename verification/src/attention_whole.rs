//! Attention that holds all keys, and then all values, at once.

use crate::attention::{
    append_scores, append_weighted_values, attention_provenance, lemma_tasks_not_empty,
    prepare_operands, tensor_rows, AttentionRuns, AttentionRunsModel, AttentionSizes,
};
use crate::attention_panels::{
    broadcast_panels_from, AttentionBlockModel, PreparedAttentionBlock,
};
use crate::attention_tasks::{build_attention_tasks, AttentionBufferShape, AttentionTask};
use crate::copies::{on_tile, view_copies};
use crate::extents::{max, max_u32};
use crate::lookup::{deferred_root, value_shards};
use crate::low::{
    ExchangeOrder, LocalCopy, LowLoweringError, LowLoweringResult, LowShardId, ViewModel,
    WorkProvenance, WorkReason,
};
use crate::mid::{
    KernelModel, MidOperation, OperatorRequirements, OperatorRequirementsModel, TileKernelSpec,
};
use crate::model::{deep, group_deep};
use crate::order::Groups;
use crate::phase::{
    add_transfer, add_transfer_to, append_ordered_phase, transfers_nonempty,
};
use crate::state::{
    append_copies_from, did, full_view, narrow_view, shard_of, LoweringState, StateModel, Step,
    StepWith, Transfers, TransfersModel,
};
use crate::target::Target;
use crate::tensor::{AMP_COLUMN_MICRO, AMP_INNER_BLOCK};
use vstd::prelude::*;

verus! {

/// Which operand of an attention is brought to the tasks.
#[derive(Clone, Copy, Debug, PartialEq, Eq, Structural)]
pub enum AttentionOperand {
    Key,
    Value,
}

/// The staging of a task for an operand.
pub open spec fn staging_of(task: AttentionTask, operand: AttentionOperand) -> LowShardId {
    match operand {
        AttentionOperand::Key => task.key_staging,
        AttentionOperand::Value => task.value_staging,
    }
}

/// Brings the listed shards of a task's head, from `k` on, to its staging.
pub open spec fn stage_task_from<M: Target>(
    target: &M,
    s: StateModel,
    sources: Seq<LowShardId>,
    task: AttentionTask,
    operand: AttentionOperand,
    k: int,
    transfers: TransfersModel,
) -> StepWith<TransfersModel>
    decreases sources.len() - k,
{
    if k >= sources.len() {
        Ok((s, transfers))
    } else {
        match shard_of(s.shards, sources[k]) {
            Err(e) => Err(e),
            Ok(from) => if from.extents.len() == 0 {
                Err(LowLoweringError::InvalidOperatorPlan)
            } else if from.extents[0].start != task.head {
                stage_task_from(target, s, sources, task, operand, k + 1, transfers)
            } else if from.extents.len() < 2 {
                Err(LowLoweringError::InvalidOperatorPlan)
            } else {
                match narrow_view(
                    s.shards,
                    staging_of(task, operand),
                    seq![(0usize, from.extents[1].start, from.extents[1].physical_end)],
                ) {
                    Err(e) => Err(e),
                    Ok(destination) => {
                        let source = ViewModel { shard: sources[k], extents: from.extents };
                        if from.tile == task.tile {
                            match view_copies(
                                target,
                                s.shards,
                                source,
                                destination,
                                ExchangeOrder::Physical,
                            ) {
                                Err(e) => Err(e),
                                Ok(copies) => match append_copies_from(
                                    s,
                                    on_tile(copies, task.tile),
                                    0,
                                ) {
                                    Err(e) => Err(e),
                                    Ok(next) => stage_task_from(
                                        target,
                                        next,
                                        sources,
                                        task,
                                        operand,
                                        k + 1,
                                        transfers,
                                    ),
                                },
                            }
                        } else {
                            stage_task_from(
                                target,
                                s,
                                sources,
                                task,
                                operand,
                                k + 1,
                                add_transfer(transfers, source, destination),
                            )
                        }
                    },
                }
            },
        }
    }
}

/// Brings an operand to the staging of the tasks from `t` on.
pub open spec fn stage_tasks_from<M: Target>(
    target: &M,
    s: StateModel,
    sources: Seq<LowShardId>,
    tasks: Seq<AttentionTask>,
    operand: AttentionOperand,
    t: int,
    transfers: TransfersModel,
) -> StepWith<TransfersModel>
    decreases tasks.len() - t,
{
    if t >= tasks.len() {
        Ok((s, transfers))
    } else {
        match stage_task_from(target, s, sources, tasks[t], operand, 0, transfers) {
            Err(e) => Err(e),
            Ok((next, more)) => stage_tasks_from(
                target,
                next,
                sources,
                tasks,
                operand,
                t + 1,
                more,
            ),
        }
    }
}

/// Sends the packed panels of the blocks from `k` on to their users.
pub open spec fn stage_blocks_from<M: Target>(
    target: &M,
    s: StateModel,
    blocks: Seq<AttentionBlockModel>,
    operand: AttentionOperand,
    k: int,
    transfers: TransfersModel,
) -> StepWith<TransfersModel>
    decreases blocks.len() - k,
{
    if k >= blocks.len() {
        Ok((s, transfers))
    } else {
        match broadcast_panels_from(
            target,
            s,
            match operand {
                AttentionOperand::Key => blocks[k].key_panels,
                AttentionOperand::Value => blocks[k].value_panels,
            },
            blocks[k].row_start,
            0,
            transfers,
        ) {
            Err(e) => Err(e),
            Ok((next, more)) => stage_blocks_from(target, next, blocks, operand, k + 1, more),
        }
    }
}

/// Brings a whole operand to the tasks.
pub open spec fn append_operand<M: Target>(
    target: &M,
    s: StateModel,
    operand: AttentionOperand,
    sources: Seq<LowShardId>,
    prepared: Option<Seq<AttentionBlockModel>>,
    tasks: Seq<AttentionTask>,
    provenance: WorkProvenance,
) -> Step {
    match (match prepared {
        None => stage_tasks_from(target, s, sources, tasks, operand, 0, Seq::empty()),
        Some(blocks) => stage_blocks_from(target, s, blocks, operand, 0, Seq::empty()),
    }) {
        Err(e) => Err(e),
        Ok((next, transfers)) => append_ordered_phase(
            next,
            transfers,
            provenance,
            ExchangeOrder::Physical,
        ),
    }
}

/// Computes the scores of the tasks from `k` on.
pub open spec fn append_all_scores_from(
    s: StateModel,
    runs: AttentionRunsModel,
    tasks: Seq<AttentionTask>,
    key_rows: u32,
    k: int,
) -> Step
    decreases tasks.len() - k,
{
    if k >= tasks.len() {
        Ok(s)
    } else {
        match append_scores(s, runs, tasks[k], tasks[k].key_staging, key_rows) {
            Err(e) => Err(e),
            Ok(next) => append_all_scores_from(next, runs, tasks, key_rows, k + 1),
        }
    }
}

/// Computes the outputs of the tasks from `k` on.
pub open spec fn append_all_values_from(
    s: StateModel,
    runs: AttentionRunsModel,
    tasks: Seq<AttentionTask>,
    k: int,
) -> Step
    decreases tasks.len() - k,
{
    if k >= tasks.len() {
        Ok(s)
    } else {
        match append_weighted_values(s, runs, tasks[k], tasks[k].value_staging, true, true) {
            Err(e) => Err(e),
            Ok(next) => append_all_values_from(next, runs, tasks, k + 1),
        }
    }
}

/// Memory of an attention over all keys at once.
pub open spec fn whole_shape(sizes: AttentionSizes, key_rows: u32) -> AttentionBufferShape {
    AttentionBufferShape {
        query_block_rows: sizes.query_block_rows,
        logical_staging_rows: key_rows,
        physical_staging_rows: sizes.key_columns,
        scratch_columns: max(sizes.key_columns, sizes.padded_value_dimension),
        state_columns: if sizes.key_columns + AMP_COLUMN_MICRO > u32::MAX {
            u32::MAX
        } else {
            (sizes.key_columns + AMP_COLUMN_MICRO) as u32
        },
        padded_query_dimension: sizes.padded_query_dimension,
        padded_value_dimension: sizes.padded_value_dimension,
        reuse_key_staging_for_state: true,
    }
}

/// Runs an attention whose operands are prepared.
pub open spec fn attend_whole<M: Target>(
    target: &M,
    s: StateModel,
    runs: AttentionRunsModel,
    exchange: WorkProvenance,
    keys: Seq<LowShardId>,
    values: Seq<LowShardId>,
    tasks: Seq<AttentionTask>,
    prepared: Option<Seq<AttentionBlockModel>>,
    key_rows: u32,
) -> Step {
    match append_operand(
        target,
        s,
        AttentionOperand::Key,
        keys,
        prepared,
        tasks,
        exchange,
    ) {
        Err(e) => Err(e),
        Ok(a) => match append_all_scores_from(a, runs, tasks, key_rows, 0) {
            Err(e) => Err(e),
            Ok(b) => match append_operand(
                target,
                b,
                AttentionOperand::Value,
                values,
                prepared,
                tasks,
                exchange,
            ) {
                Err(e) => Err(e),
                Ok(c) => append_all_values_from(c, runs, tasks, 0),
            },
        },
    }
}

/// Attention over all keys at once: scores of all keys, then all values.
pub open spec fn lower_materialized_attention<M: Target>(
    target: &M,
    s: StateModel,
    operation: MidOperation,
    query_key: KernelModel,
    probability_value: KernelModel,
    sizes: AttentionSizes,
    requirements: OperatorRequirementsModel,
) -> Step {
    if operation.inputs@.len() != 3 {
        Err(LowLoweringError::InvalidOperatorPlan)
    } else if operation.results@.len() != 1 {
        Err(LowLoweringError::ResultArity)
    } else if sizes.query_block_rows == 0 || sizes.key_columns == 0 || sizes.key_columns
        % AMP_INNER_BLOCK != 0 || (deferred_root(s, operation.inputs@[1]) is Some) != (
    deferred_root(s, operation.inputs@[2]) is Some) {
        Err(LowLoweringError::InvalidOperatorPlan)
    } else {
        match value_shards(s, operation.inputs@[1]) {
            Err(e) => Err(e),
            Ok(keys) => match value_shards(s, operation.inputs@[2]) {
                Err(e) => Err(e),
                Ok(values) => if keys.len() != values.len() {
                    Err(LowLoweringError::InvalidOperatorPlan)
                } else {
                    match tensor_rows(s.shards, keys[0]) {
                        Err(e) => Err(e),
                        Ok(key_rows) => if key_rows == 0 || key_rows > sizes.key_columns {
                            Err(LowLoweringError::InvalidOperatorPlan)
                        } else {
                            match build_attention_tasks(
                                target,
                                s,
                                operation.inputs@[0],
                                operation.results@[0],
                                whole_shape(sizes, key_rows),
                            ) {
                                Err(e) => Err(e),
                                Ok((a, tasks)) => match prepare_operands(
                                    target,
                                    a,
                                    operation,
                                    tasks,
                                    sizes,
                                    key_rows,
                                ) {
                                    Err(e) => Err(e),
                                    Ok((b, prepared)) => attend_whole(
                                        target,
                                        b,
                                        AttentionRuns {
                                            provenance: attention_provenance(operation).1,
                                            query_key,
                                            probability_value,
                                            requirements,
                                            padded_value_dimension: sizes.padded_value_dimension,
                                            padded_key_columns: sizes.key_columns,
                                        },
                                        attention_provenance(operation).0,
                                        keys,
                                        values,
                                        tasks,
                                        prepared,
                                        key_rows,
                                    ),
                                },
                            }
                        },
                    }
                },
            },
        }
    }
}

impl LoweringState {
    fn stage_task<M: Target>(
        &mut self,
        target: &M,
        sources: &Vec<LowShardId>,
        task: AttentionTask,
        operand: AttentionOperand,
        transfers: &mut Transfers,
    ) -> (r: LowLoweringResult<()>)
        ensures
            match r {
                Ok(_) => stage_task_from(
                    target,
                    old(self)@,
                    sources@,
                    task,
                    operand,
                    0,
                    old(transfers)@,
                ) == Ok::<(StateModel, TransfersModel), LowLoweringError>(
                    (final(self)@, final(transfers)@),
                ),
                Err(e) => stage_task_from(
                    target,
                    old(self)@,
                    sources@,
                    task,
                    operand,
                    0,
                    old(transfers)@,
                ) == Err::<(StateModel, TransfersModel), LowLoweringError>(e),
            },
            transfers_nonempty(old(transfers)@) ==> transfers_nonempty(final(transfers)@),
    {
        let ghost start = self@;
        let ghost before = transfers@;
        let staging = match operand {
            AttentionOperand::Key => task.key_staging,
            AttentionOperand::Value => task.value_staging,
        };
        let mut k: usize = 0;
        while k < sources.len()
            invariant
                k <= sources@.len(),
                stage_task_from(target, start, sources@, task, operand, 0, before)
                    == stage_task_from(
                    target,
                    self@,
                    sources@,
                    task,
                    operand,
                    k as int,
                    transfers@,
                ),
                transfers_nonempty(before) ==> transfers_nonempty(transfers@),
            decreases sources@.len() - k,
        {
            let source = self.full_view(sources[k])?;
            if source.extents.len() == 0 {
                return Err(LowLoweringError::InvalidOperatorPlan);
            }
            if source.extents[0].start == task.head {
                if source.extents.len() < 2 {
                    return Err(LowLoweringError::InvalidOperatorPlan);
                }
                let mut ranges: Vec<(usize, u32, u32)> = Vec::new();
                ranges.push((0, source.extents[1].start, source.extents[1].physical_end));
                assert(ranges@ =~= seq![
                    (0usize, source@.extents[1].start, source@.extents[1].physical_end),
                ]);
                let destination = self.narrow_view(staging, ranges.as_slice())?;
                if self.resides(sources[k], task.tile) {
                    let mut copies: Vec<(u16, LocalCopy)> = Vec::new();
                    assert(copies@ =~= Seq::<(u16, LocalCopy)>::empty());
                    self.append_view_copies(
                        target,
                        &source,
                        &destination,
                        task.tile,
                        ExchangeOrder::Physical,
                        &mut copies,
                    )?;
                    proof {
                        let moved = view_copies(
                            target,
                            self@.shards,
                            source@,
                            destination@,
                            ExchangeOrder::Physical,
                        )->Ok_0;
                        assert(copies@ =~= on_tile(moved, task.tile));
                    }
                    self.append_copies(&copies)?;
                } else {
                    add_transfer_to(transfers, source, destination);
                }
            }
            k += 1;
        }
        Ok(())
    }

    pub fn append_materialized_attention_input<M: Target>(
        &mut self,
        target: &M,
        operand: AttentionOperand,
        sources: &Vec<LowShardId>,
        prepared: &Option<Vec<PreparedAttentionBlock>>,
        tasks: &Vec<AttentionTask>,
        provenance: WorkProvenance,
    ) -> (r: LowLoweringResult<()>)
        ensures
            did(
                r,
                final(self)@,
                append_operand(
                    target,
                    old(self)@,
                    operand,
                    sources@,
                    match prepared {
                        Some(blocks) => Some(deep(blocks@)),
                        None => None,
                    },
                    tasks@,
                    provenance,
                ),
            ),
    {
        broadcast use group_deep;

        let ghost start = self@;
        let mut transfers: Transfers = Groups::new();
        match prepared {
            None => {
                let mut t: usize = 0;
                while t < tasks.len()
                    invariant
                        t <= tasks@.len(),
                        stage_tasks_from(
                            target,
                            start,
                            sources@,
                            tasks@,
                            operand,
                            0,
                            Seq::empty(),
                        ) == stage_tasks_from(
                            target,
                            self@,
                            sources@,
                            tasks@,
                            operand,
                            t as int,
                            transfers@,
                        ),
                        transfers_nonempty(transfers@),
                    decreases tasks@.len() - t,
                {
                    self.stage_task(target, sources, tasks[t], operand, &mut transfers)?;
                    t += 1;
                }
            },
            Some(blocks) => {
                let ghost model = deep(blocks@);
                let mut k: usize = 0;
                while k < blocks.len()
                    invariant
                        k <= blocks@.len(),
                        stage_blocks_from(target, start, model, operand, 0, Seq::empty())
                            == stage_blocks_from(
                            target,
                            self@,
                            model,
                            operand,
                            k as int,
                            transfers@,
                        ),
                        transfers_nonempty(transfers@),
                    decreases blocks@.len() - k,
                {
                    let block = &blocks[k];
                    assert(model[k as int] == block@);
                    let panels = match operand {
                        AttentionOperand::Key => &block.key_panels,
                        AttentionOperand::Value => &block.value_panels,
                    };
                    self.append_prepared_panel_broadcasts(
                        target,
                        panels,
                        block.row_start,
                        &mut transfers,
                    )?;
                    k += 1;
                }
            },
        }
        self.append_ordered_phase(&transfers, provenance, ExchangeOrder::Physical)
    }

    fn append_all_scores(
        &mut self,
        runs: &AttentionRuns<&TileKernelSpec, &OperatorRequirements>,
        tasks: &Vec<AttentionTask>,
        key_rows: u32,
    ) -> (r: LowLoweringResult<()>)
        ensures
            did(
                r,
                final(self)@,
                append_all_scores_from(old(self)@, runs@, tasks@, key_rows, 0),
            ),
    {
        let ghost start = self@;
        let mut k: usize = 0;
        while k < tasks.len()
            invariant
                k <= tasks@.len(),
                append_all_scores_from(start, runs@, tasks@, key_rows, 0)
                    == append_all_scores_from(self@, runs@, tasks@, key_rows, k as int),
            decreases tasks@.len() - k,
        {
            self.append_scores(runs, tasks[k], tasks[k].key_staging, key_rows)?;
            k += 1;
        }
        Ok(())
    }

    fn append_all_values(
        &mut self,
        runs: &AttentionRuns<&TileKernelSpec, &OperatorRequirements>,
        tasks: &Vec<AttentionTask>,
    ) -> (r: LowLoweringResult<()>)
        ensures
            did(r, final(self)@, append_all_values_from(old(self)@, runs@, tasks@, 0)),
    {
        let ghost start = self@;
        let mut k: usize = 0;
        while k < tasks.len()
            invariant
                k <= tasks@.len(),
                append_all_values_from(start, runs@, tasks@, 0) == append_all_values_from(
                    self@,
                    runs@,
                    tasks@,
                    k as int,
                ),
            decreases tasks@.len() - k,
        {
            self.append_weighted_values(runs, tasks[k], tasks[k].value_staging, true, true)?;
            k += 1;
        }
        Ok(())
    }

    pub fn lower_materialized_attention<M: Target>(
        &mut self,
        target: &M,
        operation: &MidOperation,
        query_key: &TileKernelSpec,
        probability_value: &TileKernelSpec,
        sizes: AttentionSizes,
        requirements: &OperatorRequirements,
    ) -> (r: LowLoweringResult<()>)
        ensures
            did(
                r,
                final(self)@,
                lower_materialized_attention(
                    target,
                    old(self)@,
                    *operation,
                    query_key@,
                    probability_value@,
                    sizes,
                    requirements@,
                ),
            ),
    {
        if operation.inputs.len() != 3 {
            return Err(LowLoweringError::InvalidOperatorPlan);
        }
        if operation.results.len() != 1 {
            return Err(LowLoweringError::ResultArity);
        }
        if sizes.query_block_rows == 0 || sizes.key_columns == 0 || sizes.key_columns
            % AMP_INNER_BLOCK != 0 || self.has_deferred_value(operation.inputs[1])
            != self.has_deferred_value(operation.inputs[2]) {
            return Err(LowLoweringError::InvalidOperatorPlan);
        }
        let keys = self.value_shards(operation.inputs[1])?;
        let values = self.value_shards(operation.inputs[2])?;
        if keys.len() != values.len() {
            return Err(LowLoweringError::InvalidOperatorPlan);
        }
        let key_rows: u32 = self.tensor_rows(keys[0])?;
        if key_rows == 0 || key_rows > sizes.key_columns {
            return Err(LowLoweringError::InvalidOperatorPlan);
        }
        let shape = AttentionBufferShape {
            query_block_rows: sizes.query_block_rows,
            logical_staging_rows: key_rows,
            physical_staging_rows: sizes.key_columns,
            scratch_columns: max_u32(sizes.key_columns, sizes.padded_value_dimension),
            state_columns: sizes.key_columns.saturating_add(AMP_COLUMN_MICRO),
            padded_query_dimension: sizes.padded_query_dimension,
            padded_value_dimension: sizes.padded_value_dimension,
            reuse_key_staging_for_state: true,
        };
        proof {
            lemma_tasks_not_empty(
                target,
                self@,
                operation.inputs@[0],
                operation.results@[0],
                shape,
            );
        }
        let tasks = self.build_attention_tasks(
            target,
            operation.inputs[0],
            operation.results[0],
            shape,
        )?;
        let prepared = self.prepare_operands(target, operation, &tasks, sizes, key_rows)?;
        let exchange = WorkProvenance {
            operation: operation.source,
            value: Some(operation.inputs[1]),
            reason: WorkReason::OperatorInputs,
        };
        let runs = AttentionRuns {
            provenance: WorkProvenance {
                operation: operation.source,
                value: Some(operation.results[0]),
                reason: WorkReason::OperatorKernel,
            },
            query_key,
            probability_value,
            requirements,
            padded_value_dimension: sizes.padded_value_dimension,
            padded_key_columns: sizes.key_columns,
        };
        self.append_materialized_attention_input(
            target,
            AttentionOperand::Key,
            &keys,
            &prepared,
            &tasks,
            exchange,
        )?;
        self.append_all_scores(&runs, &tasks, key_rows)?;
        self.append_materialized_attention_input(
            target,
            AttentionOperand::Value,
            &values,
            &prepared,
            &tasks,
            exchange,
        )?;
        self.append_all_values(&runs, &tasks)
    }
}

} // verus!
