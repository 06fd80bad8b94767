//! The work of attention by output shard: its scratch memory, and its queries.

use crate::buffers::{
    append_fill_zero, append_attention_rearrange, push_attention_buffer, push_attention_scratch,
};
use crate::deferred::{
    deferred_panel_mappings, gather_deferred_panel, supports_physical_exchange, Movement, Panel,
};
use crate::fragments::benefits_from_word_exchange;
use crate::lookup::{deferred_root, local_shard, value_shards};
use crate::low::{
    ExchangeOrder, LocalCopy, LowLoweringError, LowLoweringResult, LowShardId, ShardDefinition,
    ShardModel, WorkProvenance, WorkReason,
};
use crate::mid::MidValueId;
use crate::model::{Model, group_deep};
use crate::order::Groups;
use crate::phase::{append_ordered_phase, transfers_nonempty};
use crate::state::{
    append_copies_from, did, gave, has_padding, redefine, shard_of, LoweringState, StateModel, Step,
    StepWith, Transfers,
};
use crate::target::Target;
use crate::tensor::{
    AmpOrder, BlockMajorOrder, ElementOrder, MemoryClass, Precision, ShardExtent, AMP_COLUMN_MICRO,
};
use vstd::prelude::*;

verus! {

/// Sizes of the scratch memory of an attention.
#[derive(Clone, Copy, Debug, PartialEq, Eq, Structural)]
pub struct AttentionBufferShape {
    pub query_block_rows: u32,
    pub logical_staging_rows: u32,
    pub physical_staging_rows: u32,
    pub scratch_columns: u32,
    pub state_columns: u32,
    pub padded_query_dimension: u32,
    pub padded_value_dimension: u32,
    pub reuse_key_staging_for_state: bool,
}

/// The attention of one output shard.
#[derive(Clone, Copy, Debug, PartialEq, Eq, Structural)]
pub struct AttentionTask {
    pub tile: u16,
    pub head: u32,
    pub query_row_start: u32,
    pub query_rows: u32,
    pub query_dimension: u32,
    pub value_dimension: u32,
    pub query: LowShardId,
    pub query_receive: Option<LowShardId>,
    pub output: LowShardId,
    pub scratch: LowShardId,
    pub weights: LowShardId,
    pub key_staging: LowShardId,
    pub value_staging: LowShardId,
}

/// Whether a word exchange of a panel of a deferred value pays.
pub open spec fn panel_benefits<M: Target>(
    target: &M,
    s: StateModel,
    value: MidValueId,
    panel: Panel,
    destination: LowShardId,
) -> Result<bool, LowLoweringError> {
    match deferred_panel_mappings(s, value, panel, destination) {
        Err(e) => Err(e),
        Ok(mappings) => benefits_from_word_exchange(target, s.shards, mappings, destination),
    }
}

/// The queries of an output shard.
pub open spec fn query_panel(output: ShardModel, query_dimension: u32) -> Panel {
    Panel {
        stream: output.extents[0].start,
        row_start: output.extents[1].start,
        rows: (output.extents[1].physical_end - output.extents[1].start) as u32,
        column_start: 0,
        columns: query_dimension,
    }
}

/// Storage for the queries of one output: the resident shard, or a buffer for
/// deferred queries, with one more to receive them where they cannot arrive
/// packed.
pub open spec fn query_storage<M: Target>(
    target: &M,
    s: StateModel,
    query: MidValueId,
    output: ShardModel,
    canonical: LowShardId,
    query_dimension: u32,
    shape: AttentionBufferShape,
) -> StepWith<(LowShardId, Option<LowShardId>)> {
    let panel = query_panel(output, query_dimension);
    if deferred_root(s, query) is None {
        Ok((s, (canonical, None)))
    } else {
        match push_attention_buffer(
            s,
            output.tile,
            (panel.rows, panel.rows),
            (query_dimension, shape.padded_query_dimension),
            ElementOrder::Amp(AmpOrder::Left),
        ) {
            Err(e) => Err(e),
            Ok((next, buffer)) => if supports_physical_exchange(target, next, query, buffer) {
                Ok((next, (buffer, None)))
            } else {
                match panel_benefits(target, next, query, panel, buffer) {
                    Err(e) => Err(e),
                    Ok(true) => Ok((next, (buffer, None))),
                    Ok(false) => match push_attention_buffer(
                        next,
                        output.tile,
                        (panel.rows, panel.rows),
                        (query_dimension, query_dimension),
                        ElementOrder::RowMajor,
                    ) {
                        Err(e) => Err(e),
                        Ok((received, receive)) => Ok((received, (buffer, Some(receive)))),
                    },
                }
            },
        }
    }
}

/// Adds staging memory that an exchange fills.
pub open spec fn push_staging(
    s: StateModel,
    tile: u16,
    rows: (u32, u32),
    columns: (u32, u32),
    order: ElementOrder,
) -> StepWith<LowShardId> {
    match push_attention_buffer(s, tile, rows, columns, order) {
        Err(e) => Err(e),
        Ok((next, id)) => match redefine(next, id, ShardDefinition::ExchangeStaging) {
            Err(e) => Err(e),
            Ok(after) => Ok((after, id)),
        },
    }
}

/// Bytes that a shard occupies.
pub open spec fn bytes_of<M: Target>(target: &M, shards: Seq<ShardModel>, id: LowShardId) -> Result<
    u32,
    LowLoweringError,
> {
    match shard_of(shards, id) {
        Err(e) => Err(e),
        Ok(shard) => match target.spec_storage_bytes(shard.tensor_type.format, shard.extents) {
            Err(e) => Err(LowLoweringError::Storage(e)),
            Ok(bytes) => Ok(bytes),
        },
    }
}

/// Lets the weights use the memory of the keys, where it suffices: scores are
/// computed from all keys before the first weight is written.
pub open spec fn reuse_key_staging<M: Target>(
    target: &M,
    s: StateModel,
    reuse: bool,
    weights: LowShardId,
    key_staging: LowShardId,
) -> Step {
    if !reuse {
        Ok(s)
    } else {
        match bytes_of(target, s.shards, weights) {
            Err(e) => Err(e),
            Ok(needed) => match bytes_of(target, s.shards, key_staging) {
                Err(e) => Err(e),
                Ok(available) => if needed <= available {
                    redefine(s, weights, ShardDefinition::Alias(key_staging))
                } else {
                    Ok(s)
                },
            },
        }
    }
}

/// Scratch for scores, staging for keys, weights, and staging for values.
pub open spec fn attention_memory<M: Target>(
    target: &M,
    s: StateModel,
    tile: u16,
    rows: u32,
    query_dimension: u32,
    value_dimension: u32,
    row_block: u16,
    shape: AttentionBufferShape,
) -> StepWith<(LowShardId, LowShardId, LowShardId, LowShardId)> {
    match push_attention_scratch(
        s,
        tile,
        rows,
        shape.scratch_columns,
        Precision::F16,
        ElementOrder::Amp(AmpOrder::Left),
        MemoryClass::Ipu21Interleaved,
    ) {
        Err(e) => Err(e),
        Ok((a, scratch)) => match push_staging(
            a,
            tile,
            (shape.logical_staging_rows, shape.physical_staging_rows),
            (query_dimension, shape.padded_query_dimension),
            ElementOrder::Amp(AmpOrder::TransposedRight),
        ) {
            Err(e) => Err(e),
            Ok((b, key_staging)) => match push_attention_scratch(
                b,
                tile,
                rows,
                shape.state_columns,
                Precision::F16,
                ElementOrder::Amp(AmpOrder::Left),
                MemoryClass::Ipu21Standard,
            ) {
                Err(e) => Err(e),
                Ok((c, weights)) => match reuse_key_staging(
                    target,
                    c,
                    shape.reuse_key_staging_for_state,
                    weights,
                    key_staging,
                ) {
                    Err(e) => Err(e),
                    Ok(d) => match push_staging(
                        d,
                        tile,
                        (shape.logical_staging_rows, shape.physical_staging_rows),
                        (value_dimension, shape.padded_value_dimension),
                        ElementOrder::BlockMajor(
                            BlockMajorOrder::Matrix {
                                row_block,
                                column_block: AMP_COLUMN_MICRO as u16,
                            },
                        ),
                    ) {
                        Err(e) => Err(e),
                        Ok((f, value_staging)) => Ok(
                            (f, (scratch, key_staging, weights, value_staging)),
                        ),
                    },
                },
            },
        },
    }
}

/// The attention of one output shard, with its memory.
pub open spec fn attention_task<M: Target>(
    target: &M,
    s: StateModel,
    query: MidValueId,
    output: LowShardId,
    row_block: u16,
    shape: AttentionBufferShape,
) -> StepWith<AttentionTask> {
    match shard_of(s.shards, output) {
        Err(e) => Err(e),
        Ok(to) => if to.extents.len() != 3 || to.tensor_type.shape.len() == 0
            || to.extents[1].physical_end <= to.extents[1].start || to.extents[1].physical_end
            - to.extents[1].start > shape.query_block_rows {
            Err(LowLoweringError::InvalidOperatorPlan)
        } else {
            let rows = (to.extents[1].physical_end - to.extents[1].start) as u32;
            match local_shard(s, query, to.tile) {
                Err(e) => Err(e),
                Ok(canonical) => match shard_of(s.shards, canonical) {
                    Err(e) => Err(e),
                    Ok(resident) => if resident.tensor_type.shape.len() == 0 {
                        Err(LowLoweringError::InvalidOperatorPlan)
                    } else {
                        let query_dimension = resident.tensor_type.shape.last();
                        let value_dimension = to.tensor_type.shape.last();
                        match query_storage(
                            target,
                            s,
                            query,
                            to,
                            canonical,
                            query_dimension,
                            shape,
                        ) {
                            Err(e) => Err(e),
                            Ok((a, (buffer, receive))) => match attention_memory(
                                target,
                                a,
                                to.tile,
                                rows,
                                query_dimension,
                                value_dimension,
                                row_block,
                                shape,
                            ) {
                                Err(e) => Err(e),
                                Ok((b, (scratch, key_staging, weights, value_staging))) => Ok(
                                    (
                                        b,
                                        AttentionTask {
                                            tile: to.tile,
                                            head: to.extents[0].start,
                                            query_row_start: to.extents[1].start,
                                            query_rows: rows,
                                            query_dimension,
                                            value_dimension,
                                            query: buffer,
                                            query_receive: receive,
                                            output,
                                            scratch,
                                            weights,
                                            key_staging,
                                            value_staging,
                                        },
                                    ),
                                ),
                            },
                        }
                    },
                },
            }
        },
    }
}

/// `done` followed by the attention of the outputs from `k` on.
pub open spec fn attention_tasks_from<M: Target>(
    target: &M,
    s: StateModel,
    query: MidValueId,
    outputs: Seq<LowShardId>,
    row_block: u16,
    shape: AttentionBufferShape,
    k: int,
    done: Seq<AttentionTask>,
) -> StepWith<Seq<AttentionTask>>
    decreases outputs.len() - k,
{
    if k >= outputs.len() {
        Ok((s, done))
    } else {
        match attention_task(target, s, query, outputs[k], row_block, shape) {
            Err(e) => Err(e),
            Ok((next, task)) => attention_tasks_from(
                target,
                next,
                query,
                outputs,
                row_block,
                shape,
                k + 1,
                done.push(task),
            ),
        }
    }
}

/// Divides an attention by output shard.
pub open spec fn build_attention_tasks<M: Target>(
    target: &M,
    s: StateModel,
    query: MidValueId,
    result: MidValueId,
    shape: AttentionBufferShape,
) -> StepWith<Seq<AttentionTask>> {
    if shape.physical_staging_rows > u16::MAX {
        Err(LowLoweringError::InvalidOperatorPlan)
    } else {
        match value_shards(s, result) {
            Err(e) => Err(e),
            Ok(outputs) => attention_tasks_from(
                target,
                s,
                query,
                outputs,
                shape.physical_staging_rows as u16,
                shape,
                0,
                Seq::empty(),
            ),
        }
    }
}

/// `r` hands back the expected tasks, or is the expected error.
pub open spec fn gave_tasks(
    r: LowLoweringResult<Vec<AttentionTask>>,
    after: StateModel,
    step: StepWith<Seq<AttentionTask>>,
) -> bool {
    match r {
        Ok(tasks) => step == Ok::<(StateModel, Seq<AttentionTask>), LowLoweringError>(
            (after, tasks@),
        ),
        Err(e) => step == Err::<(StateModel, Seq<AttentionTask>), LowLoweringError>(e),
    }
}

impl LoweringState {
    pub fn deferred_panel_benefits_from_word_exchange<M: Target>(
        &self,
        target: &M,
        value: MidValueId,
        panel: Panel,
        destination: LowShardId,
    ) -> (r: LowLoweringResult<bool>)
        ensures
            r == panel_benefits(target, self@, value, panel, destination),
    {
        let mappings = self.deferred_panel_mappings(value, panel, destination)?;
        self.mappings_benefit_from_word_exchange(target, &mappings, destination)
    }

    fn query_storage<M: Target>(
        &mut self,
        target: &M,
        query: MidValueId,
        tile: u16,
        panel: Panel,
        canonical: LowShardId,
        shape: AttentionBufferShape,
        Ghost(output): Ghost<ShardModel>,
    ) -> (r: LowLoweringResult<(LowShardId, Option<LowShardId>)>)
        requires
            tile == output.tile,
            panel == query_panel(output, panel.columns),
        ensures
            gave(
                r,
                final(self)@,
                query_storage(
                    target,
                    old(self)@,
                    query,
                    output,
                    canonical,
                    panel.columns,
                    shape,
                ),
            ),
    {
        if !self.has_deferred_value(query) {
            return Ok((canonical, None));
        }
        let buffer = self.push_attention_buffer(
            tile,
            (panel.rows, panel.rows),
            (panel.columns, shape.padded_query_dimension),
            ElementOrder::Amp(AmpOrder::Left),
        )?;
        if self.deferred_supports_physical_exchange(target, query, buffer) {
            return Ok((buffer, None));
        }
        if self.deferred_panel_benefits_from_word_exchange(target, query, panel, buffer)? {
            return Ok((buffer, None));
        }
        let receive = self.push_attention_buffer(
            tile,
            (panel.rows, panel.rows),
            (panel.columns, panel.columns),
            ElementOrder::RowMajor,
        )?;
        Ok((buffer, Some(receive)))
    }

    fn push_staging(
        &mut self,
        tile: u16,
        rows: (u32, u32),
        columns: (u32, u32),
        order: ElementOrder,
    ) -> (r: LowLoweringResult<LowShardId>)
        ensures
            gave(r, final(self)@, push_staging(old(self)@, tile, rows, columns, order)),
    {
        let id = self.push_attention_buffer(tile, rows, columns, order)?;
        self.redefine(id, ShardDefinition::ExchangeStaging)?;
        Ok(id)
    }

    pub fn bytes_of<M: Target>(&self, target: &M, id: LowShardId) -> (r: LowLoweringResult<u32>)
        ensures
            r == bytes_of(target, self@.shards, id),
    {
        let shard = self.shard(id)?;
        match crate::copies::shard_storage_bytes(target, shard) {
            Ok(bytes) => Ok(bytes),
            Err(e) => Err(LowLoweringError::Storage(e)),
        }
    }

    fn reuse_key_staging<M: Target>(
        &mut self,
        target: &M,
        reuse: bool,
        weights: LowShardId,
        key_staging: LowShardId,
    ) -> (r: LowLoweringResult<()>)
        ensures
            did(
                r,
                final(self)@,
                reuse_key_staging(target, old(self)@, reuse, weights, key_staging),
            ),
    {
        if !reuse {
            return Ok(());
        }
        let needed: u32 = self.bytes_of(target, weights)?;
        let available: u32 = self.bytes_of(target, key_staging)?;
        if needed <= available {
            self.redefine(weights, ShardDefinition::Alias(key_staging))
        } else {
            Ok(())
        }
    }

    fn attention_memory<M: Target>(
        &mut self,
        target: &M,
        tile: u16,
        rows: u32,
        query_dimension: u32,
        value_dimension: u32,
        row_block: u16,
        shape: AttentionBufferShape,
    ) -> (r: LowLoweringResult<(LowShardId, LowShardId, LowShardId, LowShardId)>)
        ensures
            gave(
                r,
                final(self)@,
                attention_memory(
                    target,
                    old(self)@,
                    tile,
                    rows,
                    query_dimension,
                    value_dimension,
                    row_block,
                    shape,
                ),
            ),
    {
        let scratch = self.push_attention_scratch(
            tile,
            rows,
            shape.scratch_columns,
            Precision::F16,
            ElementOrder::Amp(AmpOrder::Left),
            MemoryClass::Ipu21Interleaved,
        )?;
        let key_staging = self.push_staging(
            tile,
            (shape.logical_staging_rows, shape.physical_staging_rows),
            (query_dimension, shape.padded_query_dimension),
            ElementOrder::Amp(AmpOrder::TransposedRight),
        )?;
        let weights = self.push_attention_scratch(
            tile,
            rows,
            shape.state_columns,
            Precision::F16,
            ElementOrder::Amp(AmpOrder::Left),
            MemoryClass::Ipu21Standard,
        )?;
        self.reuse_key_staging(target, shape.reuse_key_staging_for_state, weights, key_staging)?;
        let value_staging = self.push_staging(
            tile,
            (shape.logical_staging_rows, shape.physical_staging_rows),
            (value_dimension, shape.padded_value_dimension),
            ElementOrder::BlockMajor(
                BlockMajorOrder::Matrix { row_block, column_block: AMP_COLUMN_MICRO as u16 },
            ),
        )?;
        Ok((scratch, key_staging, weights, value_staging))
    }

    fn attention_task<M: Target>(
        &mut self,
        target: &M,
        query: MidValueId,
        output: LowShardId,
        row_block: u16,
        shape: AttentionBufferShape,
    ) -> (r: LowLoweringResult<AttentionTask>)
        ensures
            gave(
                r,
                final(self)@,
                attention_task(target, old(self)@, query, output, row_block, shape),
            ),
    {
        let to = self.shard(output)?.duplicate();
        if to.extents.len() != 3 || to.tensor_type.shape.0.len() == 0 {
            return Err(LowLoweringError::InvalidOperatorPlan);
        }
        let row_extent: ShardExtent = to.extents[1];
        if row_extent.physical_end <= row_extent.start || row_extent.physical_end
            - row_extent.start > shape.query_block_rows {
            return Err(LowLoweringError::InvalidOperatorPlan);
        }
        let tile: u16 = to.tile;
        let rows: u32 = row_extent.physical_end - row_extent.start;
        let head: u32 = to.extents[0].start;
        let value_dimension: u32 = to.tensor_type.shape.0[to.tensor_type.shape.0.len() - 1];
        let canonical = self.local_shard(query, tile)?;
        let resident = self.shard(canonical)?;
        let query_shape = &resident.tensor_type.shape.0;
        if query_shape.len() == 0 {
            return Err(LowLoweringError::InvalidOperatorPlan);
        }
        let query_dimension: u32 = query_shape[query_shape.len() - 1];
        let panel = Panel {
            stream: head,
            row_start: row_extent.start,
            rows,
            column_start: 0,
            columns: query_dimension,
        };
        let (buffer, receive) = self.query_storage(
            target,
            query,
            tile,
            panel,
            canonical,
            shape,
            Ghost(to@),
        )?;
        let (scratch, key_staging, weights, value_staging) = self.attention_memory(
            target,
            tile,
            rows,
            query_dimension,
            value_dimension,
            row_block,
            shape,
        )?;
        Ok(
            AttentionTask {
                tile,
                head,
                query_row_start: row_extent.start,
                query_rows: rows,
                query_dimension,
                value_dimension,
                query: buffer,
                query_receive: receive,
                output,
                scratch,
                weights,
                key_staging,
                value_staging,
            },
        )
    }

    pub fn build_attention_tasks<M: Target>(
        &mut self,
        target: &M,
        query: MidValueId,
        result: MidValueId,
        shape: AttentionBufferShape,
    ) -> (r: LowLoweringResult<Vec<AttentionTask>>)
        ensures
            gave_tasks(
                r,
                final(self)@,
                build_attention_tasks(target, old(self)@, query, result, shape),
            ),
    {
        if shape.physical_staging_rows > 0xffff {
            return Err(LowLoweringError::InvalidOperatorPlan);
        }
        let row_block: u16 = shape.physical_staging_rows as u16;
        let outputs = self.value_shards(result)?;
        let ghost start = self@;
        let mut tasks: Vec<AttentionTask> = Vec::new();
        let mut k: usize = 0;
        while k < outputs.len()
            invariant
                k <= outputs@.len(),
                attention_tasks_from(
                    target,
                    start,
                    query,
                    outputs@,
                    row_block,
                    shape,
                    0,
                    Seq::empty(),
                ) == attention_tasks_from(
                    target,
                    self@,
                    query,
                    outputs@,
                    row_block,
                    shape,
                    k as int,
                    tasks@,
                ),
            decreases outputs@.len() - k,
        {
            let task = self.attention_task(target, query, outputs[k], row_block, shape)?;
            tasks.push(task);
            k += 1;
        }
        Ok(tasks)
    }
}

// ---------------------------------------------------------------- queries

/// No task receives its queries into memory of their own.
pub open spec fn all_direct(tasks: Seq<AttentionTask>) -> bool {
    forall|i: int| 0 <= i < tasks.len() ==> (#[trigger] tasks[i]).query_receive is None
}

/// All tasks can receive their queries as panels.
pub open spec fn all_physical<M: Target>(
    target: &M,
    s: StateModel,
    query: MidValueId,
    tasks: Seq<AttentionTask>,
) -> bool {
    all_direct(tasks) && forall|i: int|
        0 <= i < tasks.len() ==> supports_physical_exchange(
            target,
            s,
            query,
            (#[trigger] tasks[i]).query,
        )
}

/// Clears the padding of the query buffers of the tasks from `k` on.
pub open spec fn clear_queries_from(
    s: StateModel,
    tasks: Seq<AttentionTask>,
    provenance: WorkProvenance,
    k: int,
) -> Step
    decreases tasks.len() - k,
{
    if k >= tasks.len() {
        Ok(s)
    } else {
        match shard_of(s.shards, tasks[k].query) {
            Err(e) => Err(e),
            Ok(shard) => if has_padding(shard.extents) {
                match append_fill_zero(s, tasks[k].query, provenance) {
                    Err(e) => Err(e),
                    Ok(next) => clear_queries_from(next, tasks, provenance, k + 1),
                }
            } else {
                clear_queries_from(s, tasks, provenance, k + 1)
            },
        }
    }
}

/// The queries of a task.
pub open spec fn task_panel(task: AttentionTask) -> Panel {
    Panel {
        stream: task.head,
        row_start: task.query_row_start,
        rows: task.query_rows,
        column_start: 0,
        columns: task.query_dimension,
    }
}

/// Where a task's queries arrive.
pub open spec fn query_destination(task: AttentionTask) -> LowShardId {
    match task.query_receive {
        Some(receive) => receive,
        None => task.query,
    }
}

/// The movement with that of the queries of the tasks from `k` on.
pub open spec fn gather_queries_from<M: Target>(
    target: &M,
    s: StateModel,
    query: MidValueId,
    tasks: Seq<AttentionTask>,
    order: ExchangeOrder,
    k: int,
    done: Movement,
) -> Result<Movement, LowLoweringError>
    decreases tasks.len() - k,
{
    if k >= tasks.len() {
        Ok(done)
    } else {
        match gather_deferred_panel(
            target,
            s,
            query,
            task_panel(tasks[k]),
            query_destination(tasks[k]),
            order,
            done,
        ) {
            Err(e) => Err(e),
            Ok(more) => gather_queries_from(target, s, query, tasks, order, k + 1, more),
        }
    }
}

/// Work on the same value by a kernel.
pub open spec fn as_kernel(provenance: WorkProvenance) -> WorkProvenance {
    WorkProvenance { reason: WorkReason::OperatorKernel, ..provenance }
}

/// Packs the queries that the tasks from `k` on received. A task without
/// memory to receive them has nothing to pack, which makes the plan invalid.
pub open spec fn pack_queries_from(
    s: StateModel,
    tasks: Seq<AttentionTask>,
    provenance: WorkProvenance,
    k: int,
) -> Step
    decreases tasks.len() - k,
{
    if k >= tasks.len() {
        Ok(s)
    } else {
        match tasks[k].query_receive {
            None => Err(LowLoweringError::InvalidOperatorPlan),
            Some(receive) => match append_attention_rearrange(
                s,
                tasks[k].tile,
                receive,
                tasks[k].query,
                2,
                as_kernel(provenance),
            ) {
                Err(e) => Err(e),
                Ok(next) => pack_queries_from(next, tasks, provenance, k + 1),
            },
        }
    }
}

/// The order in which queries are exchanged.
pub open spec fn query_order(physical: bool) -> ExchangeOrder {
    if physical {
        ExchangeOrder::Physical
    } else {
        ExchangeOrder::Semantic
    }
}

/// Brings deferred queries to the tiles that use them.
pub open spec fn materialize_queries<M: Target>(
    target: &M,
    s: StateModel,
    query: MidValueId,
    tasks: Seq<AttentionTask>,
    provenance: WorkProvenance,
) -> Step {
    let physical = all_physical(target, s, query, tasks);
    if deferred_root(s, query) is None {
        Ok(s)
    } else {
        match (if all_direct(tasks) && !physical {
            clear_queries_from(s, tasks, provenance, 0)
        } else {
            Ok(s)
        }) {
            Err(e) => Err(e),
            Ok(a) => match gather_queries_from(
                target,
                a,
                query,
                tasks,
                query_order(physical),
                0,
                (Seq::empty(), Seq::empty()),
            ) {
                Err(e) => Err(e),
                Ok((transfers, copies)) => match append_copies_from(a, copies, 0) {
                    Err(e) => Err(e),
                    Ok(b) => match append_ordered_phase(
                        b,
                        transfers,
                        provenance,
                        query_order(physical),
                    ) {
                        Err(e) => Err(e),
                        Ok(c) => if physical {
                            Ok(c)
                        } else {
                            pack_queries_from(c, tasks, provenance, 0)
                        },
                    },
                },
            },
        }
    }
}

fn are_all_direct(tasks: &Vec<AttentionTask>) -> (r: bool)
    ensures
        r == all_direct(tasks@),
{
    let mut i: usize = 0;
    while i < tasks.len()
        invariant
            i <= tasks@.len(),
            forall|k: int| 0 <= k < i ==> (#[trigger] tasks@[k]).query_receive is None,
        decreases tasks@.len() - i,
    {
        if tasks[i].query_receive.is_some() {
            assert(tasks@[i as int].query_receive is Some);
            return false;
        }
        i += 1;
    }
    true
}

impl LoweringState {
    fn are_all_physical<M: Target>(&self, target: &M, query: MidValueId, tasks: &Vec<AttentionTask>)
        -> (r: bool)
        ensures
            r == all_physical(target, self@, query, tasks@),
    {
        if !are_all_direct(tasks) {
            return false;
        }
        let mut i: usize = 0;
        while i < tasks.len()
            invariant
                i <= tasks@.len(),
                forall|k: int|
                    0 <= k < i ==> supports_physical_exchange(
                        target,
                        self@,
                        query,
                        (#[trigger] tasks@[k]).query,
                    ),
            decreases tasks@.len() - i,
        {
            if !self.deferred_supports_physical_exchange(target, query, tasks[i].query) {
                assert(!supports_physical_exchange(target, self@, query, tasks@[i as int].query));
                return false;
            }
            i += 1;
        }
        true
    }

    fn clear_queries(&mut self, tasks: &Vec<AttentionTask>, provenance: WorkProvenance) -> (r:
        LowLoweringResult<()>)
        ensures
            did(r, final(self)@, clear_queries_from(old(self)@, tasks@, provenance, 0)),
    {
        let ghost start = self@;
        let mut k: usize = 0;
        while k < tasks.len()
            invariant
                k <= tasks@.len(),
                clear_queries_from(start, tasks@, provenance, 0) == clear_queries_from(
                    self@,
                    tasks@,
                    provenance,
                    k as int,
                ),
            decreases tasks@.len() - k,
        {
            if self.shard_has_padding(tasks[k].query)? {
                self.append_fill_zero(tasks[k].query, provenance)?;
            }
            k += 1;
        }
        Ok(())
    }

    fn pack_queries(&mut self, tasks: &Vec<AttentionTask>, provenance: WorkProvenance) -> (r:
        LowLoweringResult<()>)
        ensures
            did(r, final(self)@, pack_queries_from(old(self)@, tasks@, provenance, 0)),
    {
        let ghost start = self@;
        let kernel = WorkProvenance {
            operation: provenance.operation,
            value: provenance.value,
            reason: WorkReason::OperatorKernel,
        };
        let mut k: usize = 0;
        while k < tasks.len()
            invariant
                k <= tasks@.len(),
                pack_queries_from(start, tasks@, provenance, 0) == pack_queries_from(
                    self@,
                    tasks@,
                    provenance,
                    k as int,
                ),
            decreases tasks@.len() - k,
        {
            let task = tasks[k];
            match task.query_receive {
                None => {
                    return Err(LowLoweringError::InvalidOperatorPlan);
                },
                Some(receive) => {
                    self.append_attention_rearrange(task.tile, receive, task.query, 2, kernel)?;
                },
            }
            k += 1;
        }
        Ok(())
    }

    pub fn materialize_attention_queries<M: Target>(
        &mut self,
        target: &M,
        query: MidValueId,
        tasks: &Vec<AttentionTask>,
        provenance: WorkProvenance,
    ) -> (r: LowLoweringResult<()>)
        ensures
            did(
                r,
                final(self)@,
                materialize_queries(target, old(self)@, query, tasks@, provenance),
            ),
    {
        broadcast use group_deep;

        if !self.has_deferred_value(query) {
            return Ok(());
        }
        let physical = self.are_all_physical(target, query, tasks);
        if are_all_direct(tasks) && !physical {
            self.clear_queries(tasks, provenance)?;
        }
        let order = if physical {
            ExchangeOrder::Physical
        } else {
            ExchangeOrder::Semantic
        };
        let mut transfers: Transfers = Groups::new();
        let mut copies: Vec<(u16, LocalCopy)> = Vec::new();
        assert(copies@ =~= Seq::<(u16, LocalCopy)>::empty());
        let mut k: usize = 0;
        while k < tasks.len()
            invariant
                k <= tasks@.len(),
                gather_queries_from(
                    target,
                    self@,
                    query,
                    tasks@,
                    order,
                    0,
                    (Seq::empty(), Seq::empty()),
                ) == gather_queries_from(
                    target,
                    self@,
                    query,
                    tasks@,
                    order,
                    k as int,
                    (transfers@, copies@),
                ),
                transfers_nonempty(transfers@),
            decreases tasks@.len() - k,
        {
            let task = tasks[k];
            let destination = match task.query_receive {
                Some(receive) => receive,
                None => task.query,
            };
            let panel = Panel {
                stream: task.head,
                row_start: task.query_row_start,
                rows: task.query_rows,
                column_start: 0,
                columns: task.query_dimension,
            };
            self.gather_deferred_panel(
                target,
                query,
                panel,
                destination,
                order,
                &mut transfers,
                &mut copies,
            )?;
            k += 1;
        }
        self.append_copies(&copies)?;
        self.append_ordered_phase(&transfers, provenance, order)?;
        if !physical {
            self.pack_queries(tasks, provenance)?;
        }
        Ok(())
    }
}

} // verus!
