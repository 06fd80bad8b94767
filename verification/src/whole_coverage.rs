//! What attention over all keys at once computes: the scores of all keys, and
//! the weighted values, for every part of the queries.

use crate::attention::{append_scores, append_weighted_values, AttentionRunsModel};
use crate::attention_coverage::{
    lemma_append_scores, lemma_append_values, lemma_broadcast_panels, lemma_panels_arrive,
    lemma_panels_still_brought, lemma_panels_still_on_way, lemma_scores_still_made,
    lemma_values_still_made, makes_scores, makes_values, panels_brought, panels_on_way,
    still_sends,
};
use crate::attention_panels::{broadcast_panels_from, AttentionBlockModel, PanelModel};
use crate::attention_tasks::AttentionTask;
use crate::attention_whole::{
    append_all_scores_from, append_all_values_from, append_operand, attend_whole,
    stage_blocks_from, stage_task_from, stage_tasks_from, staging_of, AttentionOperand,
};
use crate::carriage::{
    holds_on, lemma_added_transfer, lemma_append_copies, lemma_append_phase, lemma_holds_on,
    lemma_listed_copies_are_made, lemma_still_copies, lemma_still_exchanges, makes_copies,
    makes_exchange, sends, sources_agree, stands_at,
};
use crate::copies::{on_tile, view_copies};
use crate::low::{ExchangeOrder, LowShardId, ViewModel, WorkProvenance};
use crate::phase::add_transfer;
use crate::state::{append_copies_from, narrow_view, shard_of, StateModel, TransfersModel};
use crate::target::Target;
use vstd::prelude::*;

verus! {

/// The part of a task's staging that a shard fills, where it belongs to the
/// head of the task.
pub open spec fn staged_rows(
    s: StateModel,
    source: LowShardId,
    task: AttentionTask,
    operand: AttentionOperand,
) -> Option<ViewModel> {
    if source.0 < s.shards.len() && s.shards[source.0 as int].extents.len() >= 2 {
        let extents = s.shards[source.0 as int].extents;
        match narrow_view(
            s.shards,
            staging_of(task, operand),
            seq![(0usize, extents[1].start, extents[1].physical_end)],
        ) {
            Ok(view) => Some(view),
            Err(_) => None,
        }
    } else {
        None
    }
}

/// The whole of a shard.
pub open spec fn whole_shard(s: StateModel, id: LowShardId) -> ViewModel {
    ViewModel { shard: id, extents: s.shards[id.0 as int].extents }
}

/// A shard belongs to the head of a task.
pub open spec fn of_head(s: StateModel, id: LowShardId, task: AttentionTask) -> bool {
    &&& id.0 < s.shards.len()
    &&& s.shards[id.0 as int].extents.len() > 0
    &&& s.shards[id.0 as int].extents[0].start == task.head
}

/// Copies bring a shard to its rows of a task's staging.
pub open spec fn copied_to_rows<M: Target>(
    target: &M,
    s: StateModel,
    source: LowShardId,
    into: ViewModel,
    task: AttentionTask,
) -> bool {
    match view_copies(
        target,
        s.shards,
        whole_shard(s, source),
        into,
        ExchangeOrder::Physical,
    ) {
        Ok(copies) => makes_copies(s, copies, task.tile),
        Err(_) => false,
    }
}

/// A schedule brings a shard to its rows of a task's staging.
pub open spec fn rows_brought<M: Target>(
    target: &M,
    s: StateModel,
    source: LowShardId,
    task: AttentionTask,
    operand: AttentionOperand,
) -> bool {
    match staged_rows(s, source, task, operand) {
        None => false,
        Some(into) => if s.shards[source.0 as int].tile == task.tile {
            copied_to_rows(target, s, source, into, task)
        } else {
            makes_exchange(s, whole_shard(s, source), into)
        },
    }
}

/// A shard is in its rows of a task's staging, or is recorded to be sent there.
pub open spec fn rows_on_way<M: Target>(
    target: &M,
    s: StateModel,
    transfers: TransfersModel,
    source: LowShardId,
    task: AttentionTask,
    operand: AttentionOperand,
) -> bool {
    match staged_rows(s, source, task, operand) {
        None => false,
        Some(into) => if s.shards[source.0 as int].tile == task.tile {
            copied_to_rows(target, s, source, into, task)
        } else {
            sends(transfers, whole_shard(s, source), into)
        },
    }
}

proof fn lemma_rows_still_on_way<M: Target>(
    target: &M,
    s: StateModel,
    t: StateModel,
    before: TransfersModel,
    after: TransfersModel,
    source: LowShardId,
    task: AttentionTask,
    operand: AttentionOperand,
)
    requires
        holds_on(s, t),
        still_sends(before, after),
        rows_on_way(target, s, before, source, task, operand),
    ensures
        rows_on_way(target, t, after, source, task, operand),
{
    let into = staged_rows(s, source, task, operand)->Some_0;
    if s.shards[source.0 as int].tile == task.tile {
        let copies = view_copies(
            target,
            s.shards,
            whole_shard(s, source),
            into,
            ExchangeOrder::Physical,
        )->Ok_0;
        lemma_still_copies(s, t, copies, task.tile);
    }
}

/// The shards of a task's head, from position `from` on, are on their way.
pub open spec fn head_on_way<M: Target>(
    target: &M,
    s: StateModel,
    transfers: TransfersModel,
    sources: Seq<LowShardId>,
    task: AttentionTask,
    operand: AttentionOperand,
    from: int,
) -> bool {
    forall|j: int|
        from <= j < sources.len() && of_head(s, sources[j], task) ==> rows_on_way(
            target,
            s,
            transfers,
            #[trigger] sources[j],
            task,
            operand,
        )
}

proof fn lemma_head_still_on_way<M: Target>(
    target: &M,
    s: StateModel,
    t: StateModel,
    before: TransfersModel,
    after: TransfersModel,
    sources: Seq<LowShardId>,
    task: AttentionTask,
    operand: AttentionOperand,
)
    requires
        holds_on(s, t),
        still_sends(before, after),
        head_on_way(target, s, before, sources, task, operand, 0),
    ensures
        head_on_way(target, t, after, sources, task, operand, 0),
{
    assert forall|j: int|
        0 <= j < sources.len() && of_head(t, sources[j], task) implies rows_on_way(
        target,
        t,
        after,
        #[trigger] sources[j],
        task,
        operand,
    ) by {
        lemma_rows_still_on_way(target, s, t, before, after, sources[j], task, operand);
    }
}

proof fn lemma_stage_task<M: Target>(
    target: &M,
    s: StateModel,
    sources: Seq<LowShardId>,
    task: AttentionTask,
    operand: AttentionOperand,
    k: int,
    transfers: TransfersModel,
)
    requires
        0 <= k,
        sources_agree(transfers),
    ensures
        match stage_task_from(target, s, sources, task, operand, k, transfers) {
            Err(_) => true,
            Ok((t, more)) => {
                &&& holds_on(s, t)
                &&& still_sends(transfers, more)
                &&& sources_agree(more)
                &&& head_on_way(target, t, more, sources, task, operand, k)
            },
        },
    decreases sources.len() - k,
{
    if k < sources.len() {
        if let Ok(from) = shard_of(s.shards, sources[k]) {
            if from.extents.len() > 0 {
                if from.extents[0].start != task.head {
                    lemma_stage_task(target, s, sources, task, operand, k + 1, transfers);
                } else if let Some(into) = staged_rows(s, sources[k], task, operand) {
                    let source = whole_shard(s, sources[k]);
                    if from.tile == task.tile {
                        if let Ok(copies) = view_copies(
                            target,
                            s.shards,
                            source,
                            into,
                            ExchangeOrder::Physical,
                        ) {
                            let list = on_tile(copies, task.tile);
                            assert(stands_at(list, list, 0));
                            lemma_append_copies(s, list, 0);
                            lemma_listed_copies_are_made(s, list, copies, task.tile);
                            if let Ok(next) = append_copies_from(s, list, 0) {
                                lemma_stage_task(
                                    target,
                                    next,
                                    sources,
                                    task,
                                    operand,
                                    k + 1,
                                    transfers,
                                );
                                assert(rows_on_way(
                                    target,
                                    next,
                                    transfers,
                                    sources[k],
                                    task,
                                    operand,
                                ));
                                if let Ok((t, more)) = stage_task_from(
                                    target,
                                    s,
                                    sources,
                                    task,
                                    operand,
                                    k,
                                    transfers,
                                ) {
                                    lemma_holds_on(s, next, t);
                                    lemma_rows_still_on_way(
                                        target,
                                        next,
                                        t,
                                        transfers,
                                        more,
                                        sources[k],
                                        task,
                                        operand,
                                    );
                                }
                            }
                        }
                    } else {
                        let next = add_transfer(transfers, source, into);
                        lemma_added_transfer(transfers, source, into);
                        lemma_stage_task(target, s, sources, task, operand, k + 1, next);
                        if let Ok((t, more)) = stage_task_from(
                            target,
                            s,
                            sources,
                            task,
                            operand,
                            k,
                            transfers,
                        ) {
                            assert(sends(more, source, into));
                            assert forall|a: ViewModel, b: ViewModel| sends(
                                transfers,
                                a,
                                b,
                            ) implies #[trigger] sends(more, a, b) by {
                                assert(sends(next, a, b));
                            }
                        }
                    }
                }
            }
        }
    } else {
        assert(holds_on(s, s));
    }
}

proof fn lemma_stage_tasks<M: Target>(
    target: &M,
    s: StateModel,
    sources: Seq<LowShardId>,
    tasks: Seq<AttentionTask>,
    operand: AttentionOperand,
    k: int,
    transfers: TransfersModel,
)
    requires
        0 <= k,
        sources_agree(transfers),
    ensures
        match stage_tasks_from(target, s, sources, tasks, operand, k, transfers) {
            Err(_) => true,
            Ok((t, more)) => {
                &&& holds_on(s, t)
                &&& still_sends(transfers, more)
                &&& sources_agree(more)
                &&& forall|i: int|
                    k <= i < tasks.len() ==> head_on_way(
                        target,
                        t,
                        more,
                        sources,
                        #[trigger] tasks[i],
                        operand,
                        0,
                    )
            },
        },
    decreases tasks.len() - k,
{
    if k < tasks.len() {
        lemma_stage_task(target, s, sources, tasks[k], operand, 0, transfers);
        if let Ok((next, more)) = stage_task_from(
            target,
            s,
            sources,
            tasks[k],
            operand,
            0,
            transfers,
        ) {
            lemma_stage_tasks(target, next, sources, tasks, operand, k + 1, more);
            if let Ok((t, most)) = stage_tasks_from(
                target,
                s,
                sources,
                tasks,
                operand,
                k,
                transfers,
            ) {
                lemma_holds_on(s, next, t);
                assert forall|a: ViewModel, b: ViewModel| sends(transfers, a, b) implies
                    #[trigger] sends(most, a, b) by {
                    assert(sends(more, a, b));
                }
                lemma_head_still_on_way(
                    target,
                    next,
                    t,
                    more,
                    most,
                    sources,
                    tasks[k],
                    operand,
                );
            }
        }
    } else {
        assert(holds_on(s, s));
    }
}

/// The panels of one operand of a block.
pub open spec fn operand_panels(block: AttentionBlockModel, operand: AttentionOperand) -> Seq<
    PanelModel,
> {
    match operand {
        AttentionOperand::Key => block.key_panels,
        AttentionOperand::Value => block.value_panels,
    }
}

proof fn lemma_stage_blocks<M: Target>(
    target: &M,
    s: StateModel,
    blocks: Seq<AttentionBlockModel>,
    operand: AttentionOperand,
    k: int,
    transfers: TransfersModel,
)
    requires
        0 <= k,
        sources_agree(transfers),
    ensures
        match stage_blocks_from(target, s, blocks, operand, k, transfers) {
            Err(_) => true,
            Ok((t, more)) => {
                &&& holds_on(s, t)
                &&& still_sends(transfers, more)
                &&& sources_agree(more)
                &&& forall|b: int|
                    k <= b < blocks.len() ==> panels_on_way(
                        target,
                        t,
                        more,
                        operand_panels(#[trigger] blocks[b], operand),
                        blocks[b].row_start,
                        0,
                    )
            },
        },
    decreases blocks.len() - k,
{
    if k < blocks.len() {
        let panels = operand_panels(blocks[k], operand);
        let start = blocks[k].row_start;
        lemma_broadcast_panels(target, s, panels, start, 0, transfers);
        if let Ok((next, more)) = broadcast_panels_from(target, s, panels, start, 0, transfers) {
            lemma_stage_blocks(target, next, blocks, operand, k + 1, more);
            if let Ok((t, most)) = stage_blocks_from(target, s, blocks, operand, k, transfers) {
                lemma_holds_on(s, next, t);
                assert forall|a: ViewModel, b: ViewModel| sends(transfers, a, b) implies
                    #[trigger] sends(most, a, b) by {
                    assert(sends(more, a, b));
                }
                lemma_panels_still_on_way(target, next, t, more, most, panels, start, 0);
            }
        }
    } else {
        assert(holds_on(s, s));
    }
}

/// A schedule brings a whole operand to a task: every shard of its head, or
/// every packed panel to every user.
pub open spec fn operand_brought<M: Target>(
    target: &M,
    s: StateModel,
    operand: AttentionOperand,
    sources: Seq<LowShardId>,
    prepared: Option<Seq<AttentionBlockModel>>,
    task: AttentionTask,
) -> bool {
    match prepared {
        None => forall|j: int|
            0 <= j < sources.len() && of_head(s, sources[j], task) ==> rows_brought(
                target,
                s,
                #[trigger] sources[j],
                task,
                operand,
            ),
        Some(blocks) => forall|b: int|
            0 <= b < blocks.len() ==> panels_brought(
                target,
                s,
                operand_panels(#[trigger] blocks[b], operand),
                blocks[b].row_start,
            ),
    }
}

proof fn lemma_operand_still_brought<M: Target>(
    target: &M,
    s: StateModel,
    t: StateModel,
    operand: AttentionOperand,
    sources: Seq<LowShardId>,
    prepared: Option<Seq<AttentionBlockModel>>,
    task: AttentionTask,
)
    requires
        holds_on(s, t),
        operand_brought(target, s, operand, sources, prepared, task),
    ensures
        operand_brought(target, t, operand, sources, prepared, task),
{
    match prepared {
        None => {
            assert forall|j: int|
                0 <= j < sources.len() && of_head(t, sources[j], task) implies rows_brought(
                target,
                t,
                #[trigger] sources[j],
                task,
                operand,
            ) by {
                let source = sources[j];
                assert(rows_brought(target, s, source, task, operand));
                let into = staged_rows(s, source, task, operand)->Some_0;
                if s.shards[source.0 as int].tile == task.tile {
                    let copies = view_copies(
                        target,
                        s.shards,
                        whole_shard(s, source),
                        into,
                        ExchangeOrder::Physical,
                    )->Ok_0;
                    lemma_still_copies(s, t, copies, task.tile);
                } else {
                    lemma_still_exchanges(s, t, whole_shard(s, source), into);
                }
            }
        },
        Some(blocks) => {
            assert forall|b: int| 0 <= b < blocks.len() implies panels_brought(
                target,
                t,
                operand_panels(#[trigger] blocks[b], operand),
                blocks[b].row_start,
            ) by {
                lemma_panels_still_brought(
                    target,
                    s,
                    t,
                    operand_panels(blocks[b], operand),
                    blocks[b].row_start,
                );
            }
        },
    }
}

proof fn lemma_append_operand<M: Target>(
    target: &M,
    s: StateModel,
    operand: AttentionOperand,
    sources: Seq<LowShardId>,
    prepared: Option<Seq<AttentionBlockModel>>,
    tasks: Seq<AttentionTask>,
    provenance: WorkProvenance,
)
    ensures
        match append_operand(target, s, operand, sources, prepared, tasks, provenance) {
            Err(_) => true,
            Ok(t) => {
                &&& holds_on(s, t)
                &&& forall|i: int|
                    0 <= i < tasks.len() ==> operand_brought(
                        target,
                        t,
                        operand,
                        sources,
                        prepared,
                        #[trigger] tasks[i],
                    )
            },
        },
{
    if let Ok(t) = append_operand(target, s, operand, sources, prepared, tasks, provenance) {
        match prepared {
            None => {
                lemma_stage_tasks(target, s, sources, tasks, operand, 0, Seq::empty());
                let (next, transfers) = stage_tasks_from(
                    target,
                    s,
                    sources,
                    tasks,
                    operand,
                    0,
                    Seq::empty(),
                )->Ok_0;
                lemma_append_phase(next, transfers, provenance, ExchangeOrder::Physical);
                lemma_holds_on(s, next, t);
                assert forall|i: int| 0 <= i < tasks.len() implies operand_brought(
                    target,
                    t,
                    operand,
                    sources,
                    prepared,
                    #[trigger] tasks[i],
                ) by {
                    lemma_head_still_on_way(
                        target,
                        next,
                        t,
                        transfers,
                        transfers,
                        sources,
                        tasks[i],
                        operand,
                    );
                    assert forall|j: int|
                        0 <= j < sources.len() && of_head(
                            t,
                            sources[j],
                            tasks[i],
                        ) implies rows_brought(
                        target,
                        t,
                        #[trigger] sources[j],
                        tasks[i],
                        operand,
                    ) by {
                        assert(rows_on_way(
                            target,
                            t,
                            transfers,
                            sources[j],
                            tasks[i],
                            operand,
                        ));
                    }
                }
            },
            Some(blocks) => {
                lemma_stage_blocks(target, s, blocks, operand, 0, Seq::empty());
                let (next, transfers) = stage_blocks_from(
                    target,
                    s,
                    blocks,
                    operand,
                    0,
                    Seq::empty(),
                )->Ok_0;
                lemma_append_phase(next, transfers, provenance, ExchangeOrder::Physical);
                lemma_holds_on(s, next, t);
                assert forall|b: int| 0 <= b < blocks.len() implies panels_brought(
                    target,
                    t,
                    operand_panels(#[trigger] blocks[b], operand),
                    blocks[b].row_start,
                ) by {
                    lemma_panels_arrive(
                        target,
                        next,
                        t,
                        transfers,
                        operand_panels(blocks[b], operand),
                        blocks[b].row_start,
                    );
                }
            },
        }
    }
}

proof fn lemma_all_scores(
    s: StateModel,
    runs: AttentionRunsModel,
    tasks: Seq<AttentionTask>,
    key_rows: u32,
    k: int,
)
    requires
        0 <= k,
    ensures
        match append_all_scores_from(s, runs, tasks, key_rows, k) {
            Err(_) => true,
            Ok(t) => {
                &&& holds_on(s, t)
                &&& forall|i: int|
                    k <= i < tasks.len() ==> makes_scores(
                        t,
                        runs,
                        #[trigger] tasks[i],
                        tasks[i].key_staging,
                        key_rows,
                    )
            },
        },
    decreases tasks.len() - k,
{
    if k < tasks.len() {
        let key = tasks[k].key_staging;
        lemma_append_scores(s, runs, tasks[k], key, key_rows);
        if let Ok(next) = append_scores(s, runs, tasks[k], key, key_rows) {
            lemma_all_scores(next, runs, tasks, key_rows, k + 1);
            if let Ok(t) = append_all_scores_from(s, runs, tasks, key_rows, k) {
                lemma_holds_on(s, next, t);
                lemma_scores_still_made(next, t, runs, tasks[k], key, key_rows);
            }
        }
    } else {
        assert(holds_on(s, s));
    }
}

proof fn lemma_all_values(
    s: StateModel,
    runs: AttentionRunsModel,
    tasks: Seq<AttentionTask>,
    k: int,
)
    requires
        0 <= k,
    ensures
        match append_all_values_from(s, runs, tasks, k) {
            Err(_) => true,
            Ok(t) => {
                &&& holds_on(s, t)
                &&& forall|i: int|
                    k <= i < tasks.len() ==> makes_values(
                        t,
                        runs,
                        #[trigger] tasks[i],
                        tasks[i].value_staging,
                        true,
                        true,
                    )
            },
        },
    decreases tasks.len() - k,
{
    if k < tasks.len() {
        let value = tasks[k].value_staging;
        lemma_append_values(s, runs, tasks[k], value, true, true);
        if let Ok(next) = append_weighted_values(s, runs, tasks[k], value, true, true) {
            lemma_all_values(next, runs, tasks, k + 1);
            if let Ok(t) = append_all_values_from(s, runs, tasks, k) {
                lemma_holds_on(s, next, t);
                lemma_values_still_made(next, t, runs, tasks[k], value, true, true);
            }
        }
    } else {
        assert(holds_on(s, s));
    }
}

/// Attention over all keys at once brings all keys of its head to every task
/// and scores them, and brings all values and merges them into the output in
/// one step.
pub proof fn lemma_whole_attention_attends_to_all_keys<M: Target>(
    target: &M,
    s: StateModel,
    runs: AttentionRunsModel,
    exchange: WorkProvenance,
    keys: Seq<LowShardId>,
    values: Seq<LowShardId>,
    tasks: Seq<AttentionTask>,
    prepared: Option<Seq<AttentionBlockModel>>,
    key_rows: u32,
    i: int,
)
    requires
        0 <= i < tasks.len(),
    ensures
        match attend_whole(
            target,
            s,
            runs,
            exchange,
            keys,
            values,
            tasks,
            prepared,
            key_rows,
        ) {
            Err(_) => true,
            Ok(t) => {
                &&& holds_on(s, t)
                &&& operand_brought(
                    target,
                    t,
                    AttentionOperand::Key,
                    keys,
                    prepared,
                    tasks[i],
                )
                &&& makes_scores(t, runs, tasks[i], tasks[i].key_staging, key_rows)
                &&& operand_brought(
                    target,
                    t,
                    AttentionOperand::Value,
                    values,
                    prepared,
                    tasks[i],
                )
                &&& makes_values(t, runs, tasks[i], tasks[i].value_staging, true, true)
            },
        },
{
    let key = AttentionOperand::Key;
    let value = AttentionOperand::Value;
    if let Ok(t) = attend_whole(
        target,
        s,
        runs,
        exchange,
        keys,
        values,
        tasks,
        prepared,
        key_rows,
    ) {
        let a = append_operand(target, s, key, keys, prepared, tasks, exchange)->Ok_0;
        let b = append_all_scores_from(a, runs, tasks, key_rows, 0)->Ok_0;
        let c = append_operand(target, b, value, values, prepared, tasks, exchange)->Ok_0;
        lemma_append_operand(target, s, key, keys, prepared, tasks, exchange);
        lemma_all_scores(a, runs, tasks, key_rows, 0);
        lemma_append_operand(target, b, value, values, prepared, tasks, exchange);
        lemma_all_values(c, runs, tasks, 0);
        lemma_holds_on(a, b, c);
        lemma_holds_on(a, c, t);
        lemma_holds_on(b, c, t);
        lemma_holds_on(s, a, t);
        lemma_operand_still_brought(target, a, t, key, keys, prepared, tasks[i]);
        lemma_scores_still_made(b, t, runs, tasks[i], tasks[i].key_staging, key_rows);
        lemma_operand_still_brought(target, c, t, value, values, prepared, tasks[i]);
    }
}

} // verus!
