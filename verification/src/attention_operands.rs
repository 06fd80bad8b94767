//! What an attention computes with: every part of its result from the keys, the
//! values and the queries of the operation, block by block.

use crate::attention::{
    attention_provenance, block_source_from, blocked_shape, columns_view, lower_blocked_attention,
    prepare_operands, AttentionRunsModel, AttentionSizes, TaskSources,
};
use crate::attention_coverage::{
    attends_to, block_attended, block_brought, lemma_attention_attends_to_every_block,
    lemma_attention_keeps, makes_scores, makes_values,
};
use crate::attention_tasks::{
    attention_task, attention_tasks_from, build_attention_tasks, clear_queries_from,
    materialize_queries, pack_queries_from, AttentionBufferShape, AttentionTask,
};
use crate::attention_whole::{
    lower_materialized_attention, staging_of, whole_shape, AttentionOperand,
};
use crate::carriage::{makes_copies, makes_exchange, whole_view};
use crate::copies::view_copies;
use crate::fragments::div_ceil;
use crate::kernels::append_kernel;
use crate::local_conversions::{is_shard_on, lemma_shards_are_found_on_their_tiles};
use crate::lookup::{deferred_root, local_shard, resides, root_of};
use crate::low::{
    ExchangeOrder, LocalCopy, LowShardId, RunModel, ShardModel, ViewModel, WorkProvenance,
};
use crate::mid::{KernelModel, KernelSpec, MidOperation, MidValueId, OperatorRequirementsModel};
use crate::pointwise::operator_run;
use crate::product_coverage::makes;
use crate::repeat_bindings::values_known;
use crate::schedule::{follows, same_shard};
use crate::schedule_attention::{
    lemma_attention_task, lemma_build_attention_tasks, lemma_prepare_operands, task_resides,
    tasks_reside,
};
use crate::state::{
    append_copies_from, append_single_kernel, append_single_kernels_from, StateModel,
};
use crate::target::Target;
use crate::tensor::AMP_INNER_BLOCK;
use crate::whole_coverage::{
    lemma_whole_attention_attends_to_all_keys, of_head, operand_brought, rows_brought, staged_rows,
};
use vstd::prelude::*;

verus! {

/// The shard holds rows of a head of a value, from a row on.
pub open spec fn holds_rows(
    s: StateModel,
    value: MidValueId,
    id: LowShardId,
    head: u32,
    row: int,
) -> bool {
    &&& value.0 < s.canonical.len()
    &&& s.canonical[value.0 as int].contains(id)
    &&& id.0 < s.shards.len()
    &&& s.shards[id.0 as int].extents.len() >= 2
    &&& s.shards[id.0 as int].extents[0].start == head
    &&& s.shards[id.0 as int].extents[1].start == row
}

/// What a tile uses in place of a shard: the shard itself where it is there, or
/// else a shard on the tile that an exchange fills with all of it.
pub open spec fn serves_on(s: StateModel, operand: LowShardId, source: LowShardId, tile: u16) -> bool {
    &&& resides(s.shards, operand, tile)
    &&& operand == source || makes_exchange(
        s,
        whole_view(s.shards, source),
        whole_view(s.shards, operand),
    )
}

/// A view of the first columns of a matrix.
pub open spec fn is_columns_of(
    s: StateModel,
    view: ViewModel,
    id: LowShardId,
    columns: u32,
) -> bool {
    let whole = s.shards[id.0 as int].extents;
    &&& id.0 < s.shards.len()
    &&& view.shard == id
    &&& view.extents.len() == whole.len()
    &&& view.extents.len() > 1
    &&& view.extents[1].start == 0
    &&& view.extents[1].physical_end == columns
    &&& forall|a: int|
        0 <= a < whole.len() && a != 1 ==> #[trigger] view.extents[a] == whole[a]
}

/// A tile computes a view from operands, one view each.
pub open spec fn computes(
    s: StateModel,
    tile: u16,
    kernel: KernelModel,
    inputs: Seq<Seq<ViewModel>>,
    output: ViewModel,
) -> bool {
    exists|run: RunModel|
        run.metadata.kernel == kernel && run.inputs == inputs && run.output == output
            && #[trigger] makes(s, s.shards, run, tile)
}

/// What one part of an attention's result is computed with, for one block of
/// keys.
pub struct BlockUse {
    /// The shard of the queries on the tile, and what is used in its place.
    pub query_source: LowShardId,
    pub query: LowShardId,
    /// The shard of the keys, and what is used in its place.
    pub key_source: LowShardId,
    pub key: LowShardId,
    /// The shard of the values, and what is used in its place.
    pub value_source: LowShardId,
    pub value: LowShardId,
    pub scratch: LowShardId,
    pub weights: LowShardId,
    /// Scores and weighted values in the scratch, and the weights of the scores.
    pub scores: ViewModel,
    pub weighted: ViewModel,
    pub probabilities: ViewModel,
}

/// The operands of a block are those of the operation, at the head of the part
/// and the rows of the block.
pub open spec fn uses_inputs(
    s: StateModel,
    t: StateModel,
    operation: MidOperation,
    sizes: AttentionSizes,
    output: LowShardId,
    block: int,
    used: BlockUse,
) -> bool {
    let to = s.shards[output.0 as int];
    &&& is_shard_on(s, operation.inputs@[0], used.query_source, to.tile)
    &&& deferred_root(s, operation.inputs@[0]) is None ==> used.query == used.query_source
    &&& resides(t.shards, used.query, to.tile)
    &&& holds_rows(
        s,
        operation.inputs@[1],
        used.key_source,
        to.extents[0].start,
        block * AMP_INNER_BLOCK,
    )
    &&& serves_on(t, used.key, used.key_source, to.tile)
    &&& holds_rows(
        s,
        operation.inputs@[2],
        used.value_source,
        to.extents[0].start,
        block * AMP_INNER_BLOCK,
    )
    &&& serves_on(t, used.value, used.value_source, to.tile)
    &&& resides(t.shards, used.scratch, to.tile)
    &&& resides(t.shards, used.weights, to.tile)
    &&& is_columns_of(t, used.scores, used.scratch, sizes.key_columns)
    &&& is_columns_of(t, used.weighted, used.scratch, sizes.padded_value_dimension)
    &&& is_columns_of(t, used.probabilities, used.weights, sizes.key_columns)
}

/// The keys of a block that count: those that the tensor has, without padding.
pub open spec fn counting_keys(s: StateModel, key: LowShardId, block: int) -> int {
    let end = s.shards[key.0 as int].extents[1].logical_end;
    if end >= block * AMP_INNER_BLOCK {
        end - block * AMP_INNER_BLOCK
    } else {
        0
    }
}

/// The tile of a part of the result scores the keys of a block against the
/// queries, weighs the values by the scores, and merges the outcome into the
/// part, which it starts on the first block and finishes on the last.
pub open spec fn computes_block(
    s: StateModel,
    t: StateModel,
    query_key: KernelModel,
    probability_value: KernelModel,
    sizes: AttentionSizes,
    output: LowShardId,
    block: int,
    last: bool,
    used: BlockUse,
) -> bool {
    let to = s.shards[output.0 as int];
    &&& computes(
        t,
        to.tile,
        query_key,
        seq![seq![whole_view(t.shards, used.query)], seq![whole_view(t.shards, used.key)]],
        used.scores,
    )
    &&& computes(
        t,
        to.tile,
        KernelSpec::AttentionSoftmax {
            head_dimension: s.shards[used.query_source.0 as int].tensor_type.shape.last(),
            key_columns: counting_keys(s, used.key_source, block) as u32,
            padded_key_columns: sizes.key_columns,
        },
        seq![seq![used.scores]],
        whole_view(t.shards, used.weights),
    )
    &&& computes(
        t,
        to.tile,
        probability_value,
        seq![seq![used.probabilities], seq![whole_view(t.shards, used.value)]],
        used.weighted,
    )
    &&& computes(
        t,
        to.tile,
        KernelSpec::AttentionMerge {
            value_dimension: to.tensor_type.shape.last(),
            padded_value_dimension: sizes.padded_value_dimension,
            key_block_columns: sizes.key_columns,
            initial: block == 0,
            final_block: last,
        },
        seq![seq![used.weighted], seq![whole_view(t.shards, used.weights)]],
        ViewModel { shard: output, extents: to.extents },
    )
}

/// A part of the result attends to a block of the operation's keys and values.
pub open spec fn part_attends(
    s: StateModel,
    t: StateModel,
    operation: MidOperation,
    query_key: KernelModel,
    probability_value: KernelModel,
    sizes: AttentionSizes,
    output: LowShardId,
    block: int,
    last: bool,
) -> bool {
    &&& output.0 < s.shards.len()
    &&& s.shards[output.0 as int].extents.len() == 3
    &&& exists|used: BlockUse|
        uses_inputs(s, t, operation, sizes, output, block, used) && #[trigger] computes_block(
            s,
            t,
            query_key,
            probability_value,
            sizes,
            output,
            block,
            last,
            used,
        )
}

// ---------------------------------------------------------------- notes

/// The same is noted of deferred work.
spec fn notes_kept(s: StateModel, t: StateModel) -> bool {
    &&& t.deferred_conversions == s.deferred_conversions
    &&& t.deferred_values == s.deferred_values
}

proof fn lemma_same_root(s: StateModel, t: StateModel, value: MidValueId, fuel: nat)
    requires
        notes_kept(s, t),
    ensures
        root_of(t, value, fuel) == root_of(s, value, fuel),
    decreases fuel,
{
    if fuel > 0 {
        if let Some(source) = crate::lookup::converted_from(s, value) {
            lemma_same_root(s, t, source, (fuel - 1) as nat);
        }
    }
}

proof fn lemma_single_kernels_keep_notes(s: StateModel, tile: u16, runs: Seq<RunModel>, i: int)
    ensures
        match append_single_kernels_from(s, tile, runs, i) {
            Ok(t) => notes_kept(s, t),
            Err(_) => true,
        },
    decreases runs.len() - i,
{
    if i < runs.len() {
        if let Ok(next) = append_single_kernel(s, tile, runs[i]) {
            lemma_single_kernels_keep_notes(next, tile, runs, i + 1);
        }
    }
}

proof fn lemma_kernels_keep_notes(s: StateModel, tile: u16, run: RunModel)
    ensures
        match append_kernel(s, tile, run) {
            Ok(t) => notes_kept(s, t),
            Err(_) => true,
        },
{
    assert forall|runs: Seq<RunModel>| match #[trigger] append_single_kernels_from(
        s,
        tile,
        runs,
        0,
    ) {
        Ok(t) => notes_kept(s, t),
        Err(_) => true,
    } by {
        lemma_single_kernels_keep_notes(s, tile, runs, 0);
    }
}

proof fn lemma_copies_keep_notes(s: StateModel, copies: Seq<(u16, LocalCopy)>, i: int)
    ensures
        match append_copies_from(s, copies, i) {
            Ok(t) => notes_kept(s, t),
            Err(_) => true,
        },
    decreases copies.len() - i,
{
    if i < copies.len() {
        if let Ok(next) = crate::state::append_local_copy(s, copies[i].0, copies[i].1) {
            lemma_copies_keep_notes(next, copies, i + 1);
        }
    }
}

proof fn lemma_clearing_keeps_notes(
    s: StateModel,
    tasks: Seq<AttentionTask>,
    provenance: WorkProvenance,
    k: int,
)
    requires
        0 <= k,
    ensures
        match clear_queries_from(s, tasks, provenance, k) {
            Ok(t) => notes_kept(s, t),
            Err(_) => true,
        },
    decreases tasks.len() - k,
{
    if k < tasks.len() && tasks[k].query.0 < s.shards.len() {
        let shard = s.shards[tasks[k].query.0 as int];
        if crate::state::has_padding(shard.extents) {
            let run = crate::buffers::fill_zero_run(tasks[k].query, shard, provenance);
            lemma_kernels_keep_notes(s, shard.tile, run);
            if let Ok(next) = append_kernel(s, shard.tile, run) {
                lemma_clearing_keeps_notes(next, tasks, provenance, k + 1);
            }
        } else {
            lemma_clearing_keeps_notes(s, tasks, provenance, k + 1);
        }
    }
}

proof fn lemma_packing_keeps_notes(
    s: StateModel,
    tasks: Seq<AttentionTask>,
    provenance: WorkProvenance,
    k: int,
)
    requires
        0 <= k,
    ensures
        match pack_queries_from(s, tasks, provenance, k) {
            Ok(t) => notes_kept(s, t),
            Err(_) => true,
        },
    decreases tasks.len() - k,
{
    if k < tasks.len() {
        if let Some(receive) = tasks[k].query_receive {
            if receive.0 < s.shards.len() && tasks[k].query.0 < s.shards.len() {
                let run = crate::buffers::rearrange_run(
                    receive,
                    s.shards[receive.0 as int],
                    tasks[k].query,
                    s.shards[tasks[k].query.0 as int],
                    2,
                    crate::attention_tasks::as_kernel(provenance),
                );
                lemma_kernels_keep_notes(s, tasks[k].tile, run);
                if let Ok(next) = append_kernel(s, tasks[k].tile, run) {
                    lemma_packing_keeps_notes(next, tasks, provenance, k + 1);
                }
            }
        }
    }
}

proof fn lemma_queries_keep_notes<M: Target>(
    target: &M,
    s: StateModel,
    query: MidValueId,
    tasks: Seq<AttentionTask>,
    provenance: WorkProvenance,
)
    ensures
        match materialize_queries(target, s, query, tasks, provenance) {
            Ok(t) => notes_kept(s, t),
            Err(_) => true,
        },
{
    lemma_clearing_keeps_notes(s, tasks, provenance, 0);
    assert forall|a: StateModel, copies: Seq<(u16, LocalCopy)>| match #[trigger]
    append_copies_from(a, copies, 0) {
        Ok(t) => notes_kept(a, t),
        Err(_) => true,
    } by {
        lemma_copies_keep_notes(a, copies, 0);
    }
    assert forall|a: StateModel| match #[trigger] pack_queries_from(a, tasks, provenance, 0) {
        Ok(t) => notes_kept(a, t),
        Err(_) => true,
    } by {
        lemma_packing_keeps_notes(a, tasks, provenance, 0);
    }
}

// ---------------------------------------------------------------- tasks

/// The task is that of a shard of the result.
spec fn is_task_of(
    s: StateModel,
    task: AttentionTask,
    query: MidValueId,
    output: LowShardId,
    source: LowShardId,
) -> bool {
    let to = s.shards[output.0 as int];
    &&& output.0 < s.shards.len()
    &&& to.extents.len() == 3
    &&& task.output == output
    &&& task.tile == to.tile
    &&& task.head == to.extents[0].start
    &&& task.value_dimension == to.tensor_type.shape.last()
    &&& is_shard_on(s, query, source, to.tile)
    &&& task.query_dimension == s.shards[source.0 as int].tensor_type.shape.last()
    &&& deferred_root(s, query) is None ==> task.query == source
}

spec fn has_task(s: StateModel, task: AttentionTask, query: MidValueId, output: LowShardId) -> bool {
    exists|source: LowShardId| #[trigger] is_task_of(s, task, query, output, source)
}

proof fn lemma_has_task<M: Target>(
    target: &M,
    first: StateModel,
    s: StateModel,
    query: MidValueId,
    output: LowShardId,
    row_block: u16,
    shape: AttentionBufferShape,
)
    requires
        values_known(first),
        output.0 < first.shards.len(),
        follows(first, s),
        notes_kept(first, s),
    ensures
        match attention_task(target, s, query, output, row_block, shape) {
            Ok((t, task)) => {
                &&& has_task(first, task, query, output)
                &&& follows(first, t)
                &&& notes_kept(first, t)
            },
            Err(_) => true,
        },
{
    reveal(follows);
    lemma_attention_task(target, s, query, output, row_block, shape);
    if let Ok((t, task)) = attention_task(target, s, query, output, row_block, shape) {
        let to = s.shards[output.0 as int];
        let source = local_shard(s, query, to.tile)->Ok_0;
        lemma_shards_are_found_on_their_tiles(s, query, to.tile);
        let ids = first.canonical[query.0 as int];
        let k = choose|k: int| 0 <= k < ids.len() && ids[k] == source;
        assert(first.canonical[query.0 as int][k].0 < first.shards.len());
        assert(same_shard(first.shards[output.0 as int], to));
        assert(same_shard(first.shards[source.0 as int], s.shards[source.0 as int]));
        lemma_same_root(first, s, query, s.deferred_conversions.len() + 1);
        assert(is_task_of(first, task, query, output, source));
        crate::schedule::lemma_follows_on(first, s, t);
    }
}

proof fn lemma_have_tasks<M: Target>(
    target: &M,
    first: StateModel,
    s: StateModel,
    query: MidValueId,
    outputs: Seq<LowShardId>,
    row_block: u16,
    shape: AttentionBufferShape,
    k: int,
    done: Seq<AttentionTask>,
)
    requires
        values_known(first),
        forall|i: int| 0 <= i < outputs.len() ==> (#[trigger] outputs[i]).0 < first.shards.len(),
        follows(first, s),
        notes_kept(first, s),
        0 <= k <= outputs.len(),
        done.len() == k,
        forall|i: int| 0 <= i < k ==> has_task(first, #[trigger] done[i], query, outputs[i]),
    ensures
        match attention_tasks_from(target, s, query, outputs, row_block, shape, k, done) {
            Ok((t, tasks)) => {
                &&& tasks.len() == outputs.len()
                &&& forall|i: int|
                    0 <= i < tasks.len() ==> has_task(first, #[trigger] tasks[i], query, outputs[i])
                &&& notes_kept(first, t)
            },
            Err(_) => true,
        },
    decreases outputs.len() - k,
{
    if k < outputs.len() {
        lemma_has_task(target, first, s, query, outputs[k], row_block, shape);
        if let Ok((next, task)) = attention_task(target, s, query, outputs[k], row_block, shape) {
            lemma_have_tasks(
                target,
                first,
                next,
                query,
                outputs,
                row_block,
                shape,
                k + 1,
                done.push(task),
            );
        }
    }
}

// ---------------------------------------------------------------- blocks

proof fn lemma_block_source(
    shards: Seq<ShardModel>,
    ids: Seq<LowShardId>,
    head: u32,
    row: u32,
    k: int,
)
    requires
        0 <= k,
    ensures
        match block_source_from(shards, ids, head, row, k) {
            Ok(id) => {
                &&& ids.contains(id)
                &&& id.0 < shards.len()
                &&& shards[id.0 as int].extents.len() >= 2
                &&& shards[id.0 as int].extents[0].start == head
                &&& shards[id.0 as int].extents[1].start == row
            },
            Err(_) => true,
        },
    decreases ids.len() - k,
{
    if k < ids.len() {
        lemma_block_source(shards, ids, head, row, k + 1);
        assert(ids.contains(ids[k]));
    }
}

/// A block that is brought is one of the value's, and serves on the tile.
proof fn lemma_brought_serves(
    s: StateModel,
    t: StateModel,
    value: MidValueId,
    head: u32,
    row: u32,
    staging: LowShardId,
    tile: u16,
    operand: LowShardId,
)
    requires
        values_known(s),
        value.0 < s.canonical.len(),
        s.shards.len() <= t.shards.len(),
        forall|i: int| 0 <= i < s.shards.len() ==> same_shard(#[trigger] s.shards[i], t.shards[i]),
        resides(t.shards, staging, tile),
        block_brought(t, s.canonical[value.0 as int], head, row, staging, tile, operand),
    ensures
        ({
            let source = block_source_from(
                t.shards,
                s.canonical[value.0 as int],
                head,
                row,
                0,
            )->Ok_0;
            &&& holds_rows(s, value, source, head, row as int)
            &&& serves_on(t, operand, source, tile)
            &&& t.shards[source.0 as int].extents == s.shards[source.0 as int].extents
        }),
{
    let ids = s.canonical[value.0 as int];
    lemma_block_source(t.shards, ids, head, row, 0);
    let source = block_source_from(t.shards, ids, head, row, 0)->Ok_0;
    let k = choose|k: int| 0 <= k < ids.len() && ids[k] == source;
    assert(s.canonical[value.0 as int][k].0 < s.shards.len());
    assert(same_shard(s.shards[source.0 as int], t.shards[source.0 as int]));
}

proof fn lemma_columns(s: StateModel, id: LowShardId, columns: u32)
    ensures
        match columns_view(s.shards, id, columns) {
            Ok(view) => is_columns_of(s, view, id, columns),
            Err(_) => true,
        },
{
    reveal_with_fuel(crate::state::narrow_from, 2);
}

proof fn lemma_computes(
    s: StateModel,
    tile: u16,
    provenance: WorkProvenance,
    kernel: KernelModel,
    inputs: Seq<Seq<ViewModel>>,
    output: ViewModel,
    requirements: OperatorRequirementsModel,
)
    requires
        makes(s, s.shards, operator_run(provenance, kernel, inputs, output, requirements), tile),
    ensures
        computes(s, tile, kernel, inputs, output),
{
    let run = operator_run(provenance, kernel, inputs, output, requirements);
    assert(run.metadata.kernel == kernel && run.inputs == inputs && run.output == output && makes(
        s,
        s.shards,
        run,
        tile,
    ));
}

proof fn lemma_part_attends<M: Target>(
    target: &M,
    s: StateModel,
    t: StateModel,
    operation: MidOperation,
    runs: AttentionRunsModel,
    sizes: AttentionSizes,
    task: AttentionTask,
    output: LowShardId,
    block: int,
    blocks: int,
)
    requires
        values_known(s),
        operation.inputs@.len() == 3,
        operation.inputs@[1].0 < s.canonical.len(),
        operation.inputs@[2].0 < s.canonical.len(),
        s.shards.len() <= t.shards.len(),
        forall|i: int| 0 <= i < s.shards.len() ==> same_shard(#[trigger] s.shards[i], t.shards[i]),
        has_task(s, task, operation.inputs@[0], output),
        task_resides(t.shards, task),
        runs.padded_value_dimension == sizes.padded_value_dimension,
        runs.padded_key_columns == sizes.key_columns,
        0 <= block * AMP_INNER_BLOCK <= u32::MAX,
        block_attended(
            target,
            t,
            runs,
            s.canonical[operation.inputs@[1].0 as int],
            s.canonical[operation.inputs@[2].0 as int],
            task,
            None,
            block,
            blocks,
        ),
    ensures
        part_attends(
            s,
            t,
            operation,
            runs.query_key,
            runs.probability_value,
            sizes,
            output,
            block,
            block + 1 == blocks,
        ),
{
    let keys = s.canonical[operation.inputs@[1].0 as int];
    let values = s.canonical[operation.inputs@[2].0 as int];
    let row = (block * AMP_INNER_BLOCK) as u32;
    let query_source = choose|source: LowShardId| #[trigger]
        is_task_of(s, task, operation.inputs@[0], output, source);
    let sources = choose|sources: TaskSources| #[trigger]
        attends_to(target, t, runs, keys, values, task, None, block, blocks, sources);
    lemma_brought_serves(
        s,
        t,
        operation.inputs@[1],
        task.head,
        row,
        task.key_staging,
        task.tile,
        sources.0,
    );
    lemma_brought_serves(
        s,
        t,
        operation.inputs@[2],
        task.head,
        row,
        task.value_staging,
        task.tile,
        sources.1,
    );
    lemma_columns(t, task.scratch, runs.padded_key_columns);
    lemma_columns(t, task.scratch, runs.padded_value_dimension);
    lemma_columns(t, task.weights, runs.padded_key_columns);
    let used = BlockUse {
        query_source,
        query: task.query,
        key_source: block_source_from(t.shards, keys, task.head, row, 0)->Ok_0,
        key: sources.0,
        value_source: block_source_from(t.shards, values, task.head, row, 0)->Ok_0,
        value: sources.1,
        scratch: task.scratch,
        weights: task.weights,
        scores: columns_view(t.shards, task.scratch, runs.padded_key_columns)->Ok_0,
        weighted: columns_view(t.shards, task.scratch, runs.padded_value_dimension)->Ok_0,
        probabilities: columns_view(t.shards, task.weights, runs.padded_key_columns)->Ok_0,
    };
    assert(same_shard(s.shards[output.0 as int], t.shards[output.0 as int]));
    assert(uses_inputs(s, t, operation, sizes, output, block, used));
    let weights = whole_view(t.shards, task.weights);
    lemma_computes(
        t,
        task.tile,
        runs.provenance,
        runs.query_key,
        seq![seq![whole_view(t.shards, used.query)], seq![whole_view(t.shards, used.key)]],
        used.scores,
        runs.requirements,
    );
    assert(sources.2 == counting_keys(s, used.key_source, block) as u32);
    lemma_computes(
        t,
        task.tile,
        runs.provenance,
        KernelSpec::AttentionSoftmax {
            head_dimension: task.query_dimension,
            key_columns: sources.2,
            padded_key_columns: runs.padded_key_columns,
        },
        seq![seq![used.scores]],
        weights,
        runs.requirements,
    );
    lemma_computes(
        t,
        task.tile,
        runs.provenance,
        runs.probability_value,
        seq![seq![used.probabilities], seq![whole_view(t.shards, used.value)]],
        used.weighted,
        runs.requirements,
    );
    lemma_computes(
        t,
        task.tile,
        runs.provenance,
        KernelSpec::AttentionMerge {
            value_dimension: task.value_dimension,
            padded_value_dimension: runs.padded_value_dimension,
            key_block_columns: runs.padded_key_columns,
            initial: block == 0,
            final_block: block + 1 == blocks,
        },
        seq![seq![used.weighted], seq![weights]],
        whole_view(t.shards, task.output),
        runs.requirements,
    );
    assert(computes_block(
        s,
        t,
        runs.query_key,
        runs.probability_value,
        sizes,
        output,
        block,
        block + 1 == blocks,
        used,
    ));
}

/// An attention over blocks of keys, whose keys and values are not deferred,
/// attends to every block of its keys for every shard of its result. On the
/// shard's tile it scores the rows of the block that the second input has for
/// the head, and weighs the same rows of the third; both are the input's own
/// shards, or filled from them by an exchange. The blocks are as many as the
/// rows of the keys need.
pub proof fn lemma_attention_computes_with_its_inputs<M: Target>(
    target: &M,
    s: StateModel,
    operation: MidOperation,
    query_key: KernelModel,
    probability_value: KernelModel,
    sizes: AttentionSizes,
    requirements: OperatorRequirementsModel,
    i: int,
    block: int,
)
    requires
        values_known(s),
        operation.inputs@.len() == 3 ==> deferred_root(s, operation.inputs@[1]) is None,
    ensures
        match lower_blocked_attention(
            target,
            s,
            operation,
            query_key,
            probability_value,
            sizes,
            requirements,
        ) {
            Ok(t) => {
                let key = operation.inputs@[1];
                let result = operation.results@[0];
                let rows = s.shards[s.canonical[key.0 as int][0].0 as int].tensor_type.shape[1];
                &&& operation.inputs@.len() == 3
                &&& operation.results@.len() == 1
                &&& key.0 < s.canonical.len() && s.canonical[key.0 as int].len() > 0
                &&& result.0 < s.canonical.len()
                &&& sizes.key_columns == AMP_INNER_BLOCK
                &&& rows > 0
                &&& 0 <= i < s.canonical[result.0 as int].len() && 0 <= block && block
                    * AMP_INNER_BLOCK < rows ==> part_attends(
                    s,
                    t,
                    operation,
                    query_key,
                    probability_value,
                    sizes,
                    s.canonical[result.0 as int][i],
                    block,
                    rows <= (block + 1) * AMP_INNER_BLOCK,
                )
            },
            Err(_) => true,
        },
{
    if let Ok(t) = lower_blocked_attention(
        target,
        s,
        operation,
        query_key,
        probability_value,
        sizes,
        requirements,
    ) {
        reveal(follows);
        let key = operation.inputs@[1];
        let keys = s.canonical[key.0 as int];
        let values = s.canonical[operation.inputs@[2].0 as int];
        let result = operation.results@[0];
        let outputs = s.canonical[result.0 as int];
        let shape = blocked_shape(sizes);
        assert forall|k: int| 0 <= k < outputs.len() implies (#[trigger] outputs[k]).0
            < s.shards.len() by {
            assert(s.canonical[result.0 as int][k].0 < s.shards.len());
        }
        assert(s.canonical[key.0 as int][0].0 < s.shards.len());
        let (a, tasks) = build_attention_tasks(
            target,
            s,
            operation.inputs@[0],
            result,
            shape,
        )->Ok_0;
        crate::schedule::lemma_follows_itself(s);
        lemma_have_tasks(
            target,
            s,
            s,
            operation.inputs@[0],
            outputs,
            shape.physical_staging_rows as u16,
            shape,
            0,
            Seq::empty(),
        );
        lemma_build_attention_tasks(target, s, operation.inputs@[0], result, shape);
        assert(same_shard(s.shards[keys[0].0 as int], a.shards[keys[0].0 as int]));
        let rows = s.shards[keys[0].0 as int].tensor_type.shape[1];
        lemma_prepare_operands(target, a, operation, tasks, sizes, rows);
        let (exchange, kernel) = attention_provenance(operation);
        lemma_queries_keep_notes(target, a, operation.inputs@[0], tasks, exchange);
        let c = materialize_queries(target, a, operation.inputs@[0], tasks, exchange)->Ok_0;
        assert(notes_kept(s, c));
        lemma_same_root(s, c, key, s.deferred_conversions.len() + 1);
        let (b, prepared) = prepare_operands(target, a, operation, tasks, sizes, rows)->Ok_0;
        assert(prepared is None);
        let blocks = div_ceil(rows as int, AMP_INNER_BLOCK as int);
        let runs = AttentionRunsModel {
            provenance: kernel,
            query_key,
            probability_value,
            requirements,
            padded_value_dimension: sizes.padded_value_dimension,
            padded_key_columns: sizes.key_columns,
        };
        if 0 <= i < outputs.len() && 0 <= block && block * AMP_INNER_BLOCK < rows {
            lemma_attention_attends_to_every_block(
                target,
                b,
                runs,
                exchange,
                keys,
                values,
                tasks,
                prepared,
                blocks,
                block,
                i,
            );
            lemma_attention_keeps(
                target,
                b,
                runs,
                exchange,
                keys,
                values,
                tasks,
                prepared,
                blocks,
            );
            assert forall|k: int| 0 <= k < s.shards.len() implies same_shard(
                #[trigger] s.shards[k],
                t.shards[k],
            ) by {
                assert(same_shard(s.shards[k], a.shards[k]));
                assert(same_shard(a.shards[k], b.shards[k]));
            }
            crate::schedule_attention::lemma_tasks_still_reside(a, b, tasks);
            reveal(tasks_reside);
            assert(task_resides(b.shards, tasks[i]));
            lemma_part_attends(
                target,
                s,
                t,
                operation,
                runs,
                sizes,
                tasks[i],
                outputs[i],
                block,
                blocks,
            );
        }
    }
}

// ---------------------------------------------------------------- all keys at once

/// A view of some rows of a matrix.
pub open spec fn is_rows_of(
    s: StateModel,
    view: ViewModel,
    id: LowShardId,
    start: u32,
    end: u32,
) -> bool {
    let whole = s.shards[id.0 as int].extents;
    &&& id.0 < s.shards.len()
    &&& view.shard == id
    &&& view.extents.len() == whole.len()
    &&& view.extents.len() > 0
    &&& view.extents[0].start == start
    &&& view.extents[0].physical_end == end
    &&& forall|a: int| 0 < a < whole.len() ==> #[trigger] view.extents[a] == whole[a]
}

/// All of a shard is copied or exchanged into a view on a tile.
pub open spec fn is_carried<M: Target>(
    target: &M,
    s: StateModel,
    source: LowShardId,
    into: ViewModel,
    tile: u16,
) -> bool {
    if s.shards[source.0 as int].tile == tile {
        match view_copies(
            target,
            s.shards,
            whole_view(s.shards, source),
            into,
            ExchangeOrder::Physical,
        ) {
            Ok(copies) => makes_copies(s, copies, tile),
            Err(_) => false,
        }
    } else {
        makes_exchange(s, whole_view(s.shards, source), into)
    }
}

/// A shard fills its own rows of storage on a tile.
pub open spec fn fills_its_rows<M: Target>(
    target: &M,
    s: StateModel,
    source: LowShardId,
    storage: LowShardId,
    tile: u16,
) -> bool {
    let rows = s.shards[source.0 as int].extents[1];
    &&& source.0 < s.shards.len()
    &&& s.shards[source.0 as int].extents.len() >= 2
    &&& exists|into: ViewModel|
        is_rows_of(s, into, storage, rows.start, rows.physical_end) && #[trigger] is_carried(
            target,
            s,
            source,
            into,
            tile,
        )
}

/// Storage on a tile is filled with all that a value has of a head.
pub open spec fn holds_head<M: Target>(
    target: &M,
    s: StateModel,
    t: StateModel,
    value: MidValueId,
    head: u32,
    storage: LowShardId,
    tile: u16,
) -> bool {
    &&& value.0 < s.canonical.len()
    &&& resides(t.shards, storage, tile)
    &&& forall|id: LowShardId|
        s.canonical[value.0 as int].contains(id) && id.0 < s.shards.len()
            && s.shards[id.0 as int].extents.len() > 0 && s.shards[id.0 as int].extents[0].start
            == head ==> #[trigger] fills_its_rows(target, t, id, storage, tile)
}

/// The operands of an attention over all keys are those of the operation, at
/// the head of the part.
pub open spec fn uses_whole_inputs<M: Target>(
    target: &M,
    s: StateModel,
    t: StateModel,
    operation: MidOperation,
    sizes: AttentionSizes,
    output: LowShardId,
    used: BlockUse,
) -> bool {
    let to = s.shards[output.0 as int];
    &&& is_shard_on(s, operation.inputs@[0], used.query_source, to.tile)
    &&& deferred_root(s, operation.inputs@[0]) is None ==> used.query == used.query_source
    &&& resides(t.shards, used.query, to.tile)
    &&& holds_head(
        target,
        s,
        t,
        operation.inputs@[1],
        to.extents[0].start,
        used.key,
        to.tile,
    )
    &&& holds_head(
        target,
        s,
        t,
        operation.inputs@[2],
        to.extents[0].start,
        used.value,
        to.tile,
    )
    &&& resides(t.shards, used.scratch, to.tile)
    &&& resides(t.shards, used.weights, to.tile)
    &&& is_columns_of(t, used.scores, used.scratch, sizes.key_columns)
    &&& is_columns_of(t, used.weighted, used.scratch, sizes.padded_value_dimension)
    &&& is_columns_of(t, used.probabilities, used.weights, sizes.key_columns)
}

/// The tile of a part of the result scores all keys against the queries, weighs
/// all values by the scores, and writes the outcome to the part.
pub open spec fn computes_whole(
    s: StateModel,
    t: StateModel,
    query_key: KernelModel,
    probability_value: KernelModel,
    sizes: AttentionSizes,
    output: LowShardId,
    key_rows: u32,
    used: BlockUse,
) -> bool {
    let to = s.shards[output.0 as int];
    &&& computes(
        t,
        to.tile,
        query_key,
        seq![seq![whole_view(t.shards, used.query)], seq![whole_view(t.shards, used.key)]],
        used.scores,
    )
    &&& computes(
        t,
        to.tile,
        KernelSpec::AttentionSoftmax {
            head_dimension: s.shards[used.query_source.0 as int].tensor_type.shape.last(),
            key_columns: key_rows,
            padded_key_columns: sizes.key_columns,
        },
        seq![seq![used.scores]],
        whole_view(t.shards, used.weights),
    )
    &&& computes(
        t,
        to.tile,
        probability_value,
        seq![seq![used.probabilities], seq![whole_view(t.shards, used.value)]],
        used.weighted,
    )
    &&& computes(
        t,
        to.tile,
        KernelSpec::AttentionMerge {
            value_dimension: to.tensor_type.shape.last(),
            padded_value_dimension: sizes.padded_value_dimension,
            key_block_columns: sizes.key_columns,
            initial: true,
            final_block: true,
        },
        seq![seq![used.weighted], seq![whole_view(t.shards, used.weights)]],
        ViewModel { shard: output, extents: to.extents },
    )
}

/// A part of the result attends to all of the operation's keys and values.
pub open spec fn part_attends_to_all<M: Target>(
    target: &M,
    s: StateModel,
    t: StateModel,
    operation: MidOperation,
    query_key: KernelModel,
    probability_value: KernelModel,
    sizes: AttentionSizes,
    output: LowShardId,
    key_rows: u32,
) -> bool {
    &&& output.0 < s.shards.len()
    &&& s.shards[output.0 as int].extents.len() == 3
    &&& exists|used: BlockUse|
        uses_whole_inputs(target, s, t, operation, sizes, output, used)
            && #[trigger] computes_whole(
            s,
            t,
            query_key,
            probability_value,
            sizes,
            output,
            key_rows,
            used,
        )
}

proof fn lemma_operand_holds_head<M: Target>(
    target: &M,
    s: StateModel,
    t: StateModel,
    value: MidValueId,
    operand: AttentionOperand,
    task: AttentionTask,
)
    requires
        values_known(s),
        value.0 < s.canonical.len(),
        s.shards.len() <= t.shards.len(),
        forall|i: int| 0 <= i < s.shards.len() ==> same_shard(#[trigger] s.shards[i], t.shards[i]),
        task_resides(t.shards, task),
        operand_brought(target, t, operand, s.canonical[value.0 as int], None, task),
    ensures
        holds_head(target, s, t, value, task.head, staging_of(task, operand), task.tile),
{
    let ids = s.canonical[value.0 as int];
    let storage = staging_of(task, operand);
    assert forall|id: LowShardId|
        ids.contains(id) && id.0 < s.shards.len() && s.shards[id.0 as int].extents.len() > 0
            && s.shards[id.0 as int].extents[0].start == task.head implies #[trigger] fills_its_rows(
        target,
        t,
        id,
        storage,
        task.tile,
    ) by {
        let j = choose|j: int| 0 <= j < ids.len() && ids[j] == id;
        assert(same_shard(s.shards[id.0 as int], t.shards[id.0 as int]));
        assert(of_head(t, ids[j], task));
        assert(rows_brought(target, t, ids[j], task, operand));
        let into = staged_rows(t, id, task, operand)->Some_0;
        reveal_with_fuel(crate::state::narrow_from, 2);
        assert(is_carried(target, t, id, into, task.tile));
    }
}

/// An attention over all keys at once, whose keys and values are not deferred,
/// attends to all keys for every shard of its result. On the shard's tile, every
/// shard that the second input has of the head fills its rows of the operand that
/// is scored, and every one that the third input has fills its rows of the
/// operand that is weighed.
pub proof fn lemma_whole_attention_computes_with_its_inputs<M: Target>(
    target: &M,
    s: StateModel,
    operation: MidOperation,
    query_key: KernelModel,
    probability_value: KernelModel,
    sizes: AttentionSizes,
    requirements: OperatorRequirementsModel,
    i: int,
)
    requires
        values_known(s),
        operation.inputs@.len() == 3 ==> deferred_root(s, operation.inputs@[1]) is None,
    ensures
        match lower_materialized_attention(
            target,
            s,
            operation,
            query_key,
            probability_value,
            sizes,
            requirements,
        ) {
            Ok(t) => {
                let key = operation.inputs@[1];
                let result = operation.results@[0];
                let rows = s.shards[s.canonical[key.0 as int][0].0 as int].tensor_type.shape[1];
                &&& operation.inputs@.len() == 3
                &&& operation.results@.len() == 1
                &&& key.0 < s.canonical.len() && s.canonical[key.0 as int].len() > 0
                &&& result.0 < s.canonical.len()
                &&& 0 < rows <= sizes.key_columns
                &&& 0 <= i < s.canonical[result.0 as int].len() ==> part_attends_to_all(
                    target,
                    s,
                    t,
                    operation,
                    query_key,
                    probability_value,
                    sizes,
                    s.canonical[result.0 as int][i],
                    rows,
                )
            },
            Err(_) => true,
        },
{
    if let Ok(t) = lower_materialized_attention(
        target,
        s,
        operation,
        query_key,
        probability_value,
        sizes,
        requirements,
    ) {
        reveal(follows);
        let key = operation.inputs@[1];
        let keys = s.canonical[key.0 as int];
        let values = s.canonical[operation.inputs@[2].0 as int];
        let result = operation.results@[0];
        let outputs = s.canonical[result.0 as int];
        assert(s.canonical[key.0 as int][0].0 < s.shards.len());
        let rows = s.shards[keys[0].0 as int].tensor_type.shape[1];
        let shape = whole_shape(sizes, rows);
        assert forall|k: int| 0 <= k < outputs.len() implies (#[trigger] outputs[k]).0
            < s.shards.len() by {
            assert(s.canonical[result.0 as int][k].0 < s.shards.len());
        }
        let (a, tasks) = build_attention_tasks(
            target,
            s,
            operation.inputs@[0],
            result,
            shape,
        )->Ok_0;
        crate::schedule::lemma_follows_itself(s);
        lemma_have_tasks(
            target,
            s,
            s,
            operation.inputs@[0],
            outputs,
            shape.physical_staging_rows as u16,
            shape,
            0,
            Seq::empty(),
        );
        lemma_build_attention_tasks(target, s, operation.inputs@[0], result, shape);
        lemma_prepare_operands(target, a, operation, tasks, sizes, rows);
        let (exchange, kernel) = attention_provenance(operation);
        lemma_queries_keep_notes(target, a, operation.inputs@[0], tasks, exchange);
        let c = materialize_queries(target, a, operation.inputs@[0], tasks, exchange)->Ok_0;
        lemma_same_root(s, c, key, s.deferred_conversions.len() + 1);
        let (b, prepared) = prepare_operands(target, a, operation, tasks, sizes, rows)->Ok_0;
        assert(prepared is None);
        let runs = AttentionRunsModel {
            provenance: kernel,
            query_key,
            probability_value,
            requirements,
            padded_value_dimension: sizes.padded_value_dimension,
            padded_key_columns: sizes.key_columns,
        };
        if 0 <= i < outputs.len() {
            lemma_whole_attention_attends_to_all_keys(
                target,
                b,
                runs,
                exchange,
                keys,
                values,
                tasks,
                prepared,
                rows,
                i,
            );
            assert forall|k: int| 0 <= k < s.shards.len() implies same_shard(
                #[trigger] s.shards[k],
                t.shards[k],
            ) by {
                assert(same_shard(s.shards[k], a.shards[k]));
                assert(same_shard(a.shards[k], b.shards[k]));
            }
            crate::schedule_attention::lemma_tasks_still_reside(a, b, tasks);
            reveal(tasks_reside);
            let task = tasks[i];
            assert(task_resides(b.shards, task));
            lemma_operand_holds_head(
                target,
                s,
                t,
                key,
                AttentionOperand::Key,
                task,
            );
            lemma_operand_holds_head(
                target,
                s,
                t,
                operation.inputs@[2],
                AttentionOperand::Value,
                task,
            );
            lemma_part_attends_to_all(
                target,
                s,
                t,
                operation,
                runs,
                sizes,
                task,
                outputs[i],
                rows,
            );
        }
    }
}

proof fn lemma_part_attends_to_all<M: Target>(
    target: &M,
    s: StateModel,
    t: StateModel,
    operation: MidOperation,
    runs: AttentionRunsModel,
    sizes: AttentionSizes,
    task: AttentionTask,
    output: LowShardId,
    key_rows: u32,
)
    requires
        s.shards.len() <= t.shards.len(),
        forall|i: int| 0 <= i < s.shards.len() ==> same_shard(#[trigger] s.shards[i], t.shards[i]),
        has_task(s, task, operation.inputs@[0], output),
        task_resides(t.shards, task),
        runs.padded_value_dimension == sizes.padded_value_dimension,
        runs.padded_key_columns == sizes.key_columns,
        holds_head(
            target,
            s,
            t,
            operation.inputs@[1],
            task.head,
            task.key_staging,
            task.tile,
        ),
        holds_head(
            target,
            s,
            t,
            operation.inputs@[2],
            task.head,
            task.value_staging,
            task.tile,
        ),
        makes_scores(t, runs, task, task.key_staging, key_rows),
        makes_values(t, runs, task, task.value_staging, true, true),
    ensures
        part_attends_to_all(
            target,
            s,
            t,
            operation,
            runs.query_key,
            runs.probability_value,
            sizes,
            output,
            key_rows,
        ),
{
    let query_source = choose|source: LowShardId| #[trigger]
        is_task_of(s, task, operation.inputs@[0], output, source);
    lemma_columns(t, task.scratch, runs.padded_key_columns);
    lemma_columns(t, task.scratch, runs.padded_value_dimension);
    lemma_columns(t, task.weights, runs.padded_key_columns);
    let used = BlockUse {
        query_source,
        query: task.query,
        key_source: task.key_staging,
        key: task.key_staging,
        value_source: task.value_staging,
        value: task.value_staging,
        scratch: task.scratch,
        weights: task.weights,
        scores: columns_view(t.shards, task.scratch, runs.padded_key_columns)->Ok_0,
        weighted: columns_view(t.shards, task.scratch, runs.padded_value_dimension)->Ok_0,
        probabilities: columns_view(t.shards, task.weights, runs.padded_key_columns)->Ok_0,
    };
    assert(same_shard(s.shards[output.0 as int], t.shards[output.0 as int]));
    assert(uses_whole_inputs(target, s, t, operation, sizes, output, used));
    let weights = whole_view(t.shards, task.weights);
    lemma_computes(
        t,
        task.tile,
        runs.provenance,
        runs.query_key,
        seq![seq![whole_view(t.shards, used.query)], seq![whole_view(t.shards, used.key)]],
        used.scores,
        runs.requirements,
    );
    lemma_computes(
        t,
        task.tile,
        runs.provenance,
        KernelSpec::AttentionSoftmax {
            head_dimension: task.query_dimension,
            key_columns: key_rows,
            padded_key_columns: runs.padded_key_columns,
        },
        seq![seq![used.scores]],
        weights,
        runs.requirements,
    );
    lemma_computes(
        t,
        task.tile,
        runs.provenance,
        runs.probability_value,
        seq![seq![used.probabilities], seq![whole_view(t.shards, used.value)]],
        used.weighted,
        runs.requirements,
    );
    lemma_computes(
        t,
        task.tile,
        runs.provenance,
        KernelSpec::AttentionMerge {
            value_dimension: task.value_dimension,
            padded_value_dimension: runs.padded_value_dimension,
            key_block_columns: runs.padded_key_columns,
            initial: true,
            final_block: true,
        },
        seq![seq![used.weighted], seq![weights]],
        whole_view(t.shards, task.output),
        runs.requirements,
    );
    assert(computes_whole(
        s,
        t,
        runs.query_key,
        runs.probability_value,
        sizes,
        output,
        key_rows,
        used,
    ));
}

} // verus!
