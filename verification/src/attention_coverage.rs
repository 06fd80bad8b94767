//! What attention over blocks of keys computes: every block, for every part of
//! the queries, from the first block to the last.

use crate::attention::{
    append_scores, append_weighted_values, attend_from, block_operands, block_source_from,
    block_sources_from, blocks_from, columns_view, resident_block, valid_keys, AttentionRunsModel,
    TaskSources,
};
use crate::attention_panels::{
    broadcast_panel_from, broadcast_panels_from, panel_destination, AttentionBlockModel,
    PanelModel,
};
use crate::attention_tasks::AttentionTask;
use crate::carriage::{
    holds_on, lemma_added_transfer, lemma_append_phase, lemma_holds_on,
    lemma_listed_copies_are_made, lemma_append_copies, lemma_still_copies, lemma_still_exchanges,
    makes_copies, makes_exchange, sends, sources_agree, stands_at,
};
use crate::copies::{on_tile, view_copies};
use crate::low::{
    ExchangeOrder, LocalCopy, LowShardId, RunModel, ShardModel, ViewModel, WorkProvenance,
};
use crate::mid::KernelSpec;
use crate::phase::add_transfer;
use crate::pointwise::operator_run;
use crate::product_coverage::{grew, lemma_append_run, lemma_still_made, makes, makes_at};
use crate::state::{append_copies_from, full_view, shard_of, StateModel, TransfersModel};
use crate::target::Target;
use crate::tensor::AMP_INNER_BLOCK;
use vstd::prelude::*;

verus! {

// ---------------------------------------------------------------- runs

/// A schedule computes the scores of a task from a block of keys, and the
/// weights from the scores.
pub open spec fn makes_scores(
    s: StateModel,
    runs: AttentionRunsModel,
    task: AttentionTask,
    key: LowShardId,
    key_columns: u32,
) -> bool {
    let scores = columns_view(s.shards, task.scratch, runs.padded_key_columns);
    let query = full_view(s.shards, task.query);
    let keys = full_view(s.shards, key);
    let weights = full_view(s.shards, task.weights);
    &&& scores is Ok
    &&& query is Ok
    &&& keys is Ok
    &&& weights is Ok
    &&& makes(
        s,
        s.shards,
        operator_run(
            runs.provenance,
            runs.query_key,
            seq![seq![query->Ok_0], seq![keys->Ok_0]],
            scores->Ok_0,
            runs.requirements,
        ),
        task.tile,
    )
    &&& makes(
        s,
        s.shards,
        operator_run(
            runs.provenance,
            KernelSpec::AttentionSoftmax {
                head_dimension: task.query_dimension,
                key_columns,
                padded_key_columns: runs.padded_key_columns,
            },
            seq![seq![scores->Ok_0]],
            weights->Ok_0,
            runs.requirements,
        ),
        task.tile,
    )
}

/// A schedule weighs a block of values, and merges the result into the output
/// of a task.
pub open spec fn makes_values(
    s: StateModel,
    runs: AttentionRunsModel,
    task: AttentionTask,
    value: LowShardId,
    initial: bool,
    final_block: bool,
) -> bool {
    let probabilities = columns_view(s.shards, task.weights, runs.padded_key_columns);
    let block = columns_view(s.shards, task.scratch, runs.padded_value_dimension);
    let values = full_view(s.shards, value);
    let weights = full_view(s.shards, task.weights);
    let output = full_view(s.shards, task.output);
    &&& probabilities is Ok
    &&& block is Ok
    &&& values is Ok
    &&& weights is Ok
    &&& output is Ok
    &&& makes(
        s,
        s.shards,
        operator_run(
            runs.provenance,
            runs.probability_value,
            seq![seq![probabilities->Ok_0], seq![values->Ok_0]],
            block->Ok_0,
            runs.requirements,
        ),
        task.tile,
    )
    &&& makes(
        s,
        s.shards,
        operator_run(
            runs.provenance,
            KernelSpec::AttentionMerge {
                value_dimension: task.value_dimension,
                padded_value_dimension: runs.padded_value_dimension,
                key_block_columns: runs.padded_key_columns,
                initial,
                final_block,
            },
            seq![seq![block->Ok_0], seq![weights->Ok_0]],
            output->Ok_0,
            runs.requirements,
        ),
        task.tile,
    )
}

proof fn lemma_still_makes(s: StateModel, t: StateModel, run: RunModel, tile: u16)
    requires
        holds_on(s, t),
        makes(s, s.shards, run, tile),
    ensures
        makes(t, t.shards, run, tile),
{
    let at = choose|at: int| #[trigger] makes_at(s, s.shards, run, tile, at);
    assert(grew(s, t));
    lemma_still_made(s, t, s.shards, run, tile, at);
}

proof fn lemma_run_is_made(s: StateModel, tile: u16, run: RunModel, t: StateModel)
    requires
        crate::kernels::append_kernel(s, tile, run) == Ok::<
            StateModel,
            crate::low::LowLoweringError,
        >(t),
    ensures
        holds_on(s, t),
        makes(t, t.shards, run, tile),
{
    lemma_append_run(s, tile, run);
    assert(makes_at(t, s.shards, run, tile, s.kernel_runs.len() as int));
}

pub(crate) proof fn lemma_append_scores(
    s: StateModel,
    runs: AttentionRunsModel,
    task: AttentionTask,
    key: LowShardId,
    key_columns: u32,
)
    ensures
        match append_scores(s, runs, task, key, key_columns) {
            Err(_) => true,
            Ok(t) => holds_on(s, t) && makes_scores(t, runs, task, key, key_columns),
        },
{
    if let Ok(t) = append_scores(s, runs, task, key, key_columns) {
        let scores = columns_view(s.shards, task.scratch, runs.padded_key_columns)->Ok_0;
        let query = full_view(s.shards, task.query)->Ok_0;
        let keys = full_view(s.shards, key)->Ok_0;
        let first = operator_run(
            runs.provenance,
            runs.query_key,
            seq![seq![query], seq![keys]],
            scores,
            runs.requirements,
        );
        let a = crate::kernels::append_kernel(s, task.tile, first)->Ok_0;
        lemma_run_is_made(s, task.tile, first, a);
        let weights = full_view(a.shards, task.weights)->Ok_0;
        let second = operator_run(
            runs.provenance,
            KernelSpec::AttentionSoftmax {
                head_dimension: task.query_dimension,
                key_columns,
                padded_key_columns: runs.padded_key_columns,
            },
            seq![seq![scores]],
            weights,
            runs.requirements,
        );
        lemma_run_is_made(a, task.tile, second, t);
        lemma_holds_on(s, a, t);
        lemma_still_makes(a, t, first, task.tile);
    }
}

pub(crate) proof fn lemma_append_values(
    s: StateModel,
    runs: AttentionRunsModel,
    task: AttentionTask,
    value: LowShardId,
    initial: bool,
    final_block: bool,
)
    ensures
        match append_weighted_values(s, runs, task, value, initial, final_block) {
            Err(_) => true,
            Ok(t) => holds_on(s, t) && makes_values(t, runs, task, value, initial, final_block),
        },
{
    if let Ok(t) = append_weighted_values(s, runs, task, value, initial, final_block) {
        let probabilities = columns_view(s.shards, task.weights, runs.padded_key_columns)->Ok_0;
        let block = columns_view(s.shards, task.scratch, runs.padded_value_dimension)->Ok_0;
        let values = full_view(s.shards, value)->Ok_0;
        let first = operator_run(
            runs.provenance,
            runs.probability_value,
            seq![seq![probabilities], seq![values]],
            block,
            runs.requirements,
        );
        let a = crate::kernels::append_kernel(s, task.tile, first)->Ok_0;
        lemma_run_is_made(s, task.tile, first, a);
        let weights = full_view(a.shards, task.weights)->Ok_0;
        let output = full_view(a.shards, task.output)->Ok_0;
        let second = operator_run(
            runs.provenance,
            KernelSpec::AttentionMerge {
                value_dimension: task.value_dimension,
                padded_value_dimension: runs.padded_value_dimension,
                key_block_columns: runs.padded_key_columns,
                initial,
                final_block,
            },
            seq![seq![block], seq![weights]],
            output,
            runs.requirements,
        );
        lemma_run_is_made(a, task.tile, second, t);
        lemma_holds_on(s, a, t);
        lemma_still_makes(a, t, first, task.tile);
    }
}

/// A schedule attends to one block for a task.
pub open spec fn attends(
    s: StateModel,
    runs: AttentionRunsModel,
    task: AttentionTask,
    sources: TaskSources,
    initial: bool,
    final_block: bool,
) -> bool {
    &&& makes_scores(s, runs, task, sources.0, sources.2)
    &&& makes_values(s, runs, task, sources.1, initial, final_block)
}

proof fn lemma_still_attends(
    s: StateModel,
    t: StateModel,
    runs: AttentionRunsModel,
    task: AttentionTask,
    sources: TaskSources,
    initial: bool,
    final_block: bool,
)
    requires
        holds_on(s, t),
        attends(s, runs, task, sources, initial, final_block),
    ensures
        attends(t, runs, task, sources, initial, final_block),
{
    lemma_scores_still_made(s, t, runs, task, sources.0, sources.2);
    lemma_values_still_made(s, t, runs, task, sources.1, initial, final_block);
}

pub(crate) proof fn lemma_scores_still_made(
    s: StateModel,
    t: StateModel,
    runs: AttentionRunsModel,
    task: AttentionTask,
    key: LowShardId,
    key_columns: u32,
)
    requires
        holds_on(s, t),
        makes_scores(s, runs, task, key, key_columns),
    ensures
        makes_scores(t, runs, task, key, key_columns),
{
    assert forall|run: RunModel| makes(s, s.shards, run, task.tile) implies #[trigger] makes(
        t,
        t.shards,
        run,
        task.tile,
    ) by {
        lemma_still_makes(s, t, run, task.tile);
    }
}

pub(crate) proof fn lemma_values_still_made(
    s: StateModel,
    t: StateModel,
    runs: AttentionRunsModel,
    task: AttentionTask,
    value: LowShardId,
    initial: bool,
    final_block: bool,
)
    requires
        holds_on(s, t),
        makes_values(s, runs, task, value, initial, final_block),
    ensures
        makes_values(t, runs, task, value, initial, final_block),
{
    assert forall|run: RunModel| makes(s, s.shards, run, task.tile) implies #[trigger] makes(
        t,
        t.shards,
        run,
        task.tile,
    ) by {
        lemma_still_makes(s, t, run, task.tile);
    }
}

proof fn lemma_attend_from(
    s: StateModel,
    runs: AttentionRunsModel,
    tasks: Seq<AttentionTask>,
    sources: Seq<TaskSources>,
    initial: bool,
    final_block: bool,
    k: int,
)
    requires
        0 <= k,
    ensures
        match attend_from(s, runs, tasks, sources, initial, final_block, k) {
            Err(_) => true,
            Ok(t) => {
                &&& k <= tasks.len() ==> holds_on(s, t)
                &&& forall|i: int|
                    k <= i < tasks.len() ==> attends(
                        t,
                        runs,
                        #[trigger] tasks[i],
                        sources[i],
                        initial,
                        final_block,
                    )
            },
        },
    decreases tasks.len() - k,
{
    if k < tasks.len() {
        lemma_append_scores(s, runs, tasks[k], sources[k].0, sources[k].2);
        if let Ok(a) = append_scores(s, runs, tasks[k], sources[k].0, sources[k].2) {
            lemma_append_values(a, runs, tasks[k], sources[k].1, initial, final_block);
            if let Ok(b) = append_weighted_values(
                a,
                runs,
                tasks[k],
                sources[k].1,
                initial,
                final_block,
            ) {
                lemma_holds_on(s, a, b);
                lemma_scores_still_made(a, b, runs, tasks[k], sources[k].0, sources[k].2);
                lemma_attend_from(b, runs, tasks, sources, initial, final_block, k + 1);
                if let Ok(t) = attend_from(
                    s,
                    runs,
                    tasks,
                    sources,
                    initial,
                    final_block,
                    k,
                ) {
                    lemma_holds_on(s, b, t);
                    lemma_still_attends(
                        b,
                        t,
                        runs,
                        tasks[k],
                        sources[k],
                        initial,
                        final_block,
                    );
                }
            }
        }
    } else {
        assert(holds_on(s, s));
    }
}

// ---------------------------------------------------------------- operands

/// A schedule brings a panel to one of its users.
pub open spec fn panel_brought<M: Target>(
    target: &M,
    s: StateModel,
    panel: PanelModel,
    user: LowShardId,
    row_start: u32,
) -> bool {
    let source = full_view(s.shards, panel.packed);
    &&& source is Ok
    &&& source->Ok_0.extents.len() > 0
    &&& user.0 < s.shards.len()
    &&& match panel_destination(
        s.shards,
        user,
        row_start,
        source->Ok_0.extents[0].physical_end - source->Ok_0.extents[0].start,
        panel.panel,
    ) {
        Err(_) => false,
        Ok(destination) => if s.shards[user.0 as int].tile == panel.tile {
            match view_copies(
                target,
                s.shards,
                source->Ok_0,
                destination,
                ExchangeOrder::Physical,
            ) {
                Err(_) => false,
                Ok(copies) => makes_copies(s, copies, panel.tile),
            }
        } else {
            makes_exchange(s, source->Ok_0, destination)
        },
    }
}

/// A panel is with one of its users, or is recorded to be sent there.
pub open spec fn panel_on_way<M: Target>(
    target: &M,
    s: StateModel,
    transfers: TransfersModel,
    panel: PanelModel,
    user: LowShardId,
    row_start: u32,
) -> bool {
    let source = full_view(s.shards, panel.packed);
    &&& source is Ok
    &&& source->Ok_0.extents.len() > 0
    &&& user.0 < s.shards.len()
    &&& match panel_destination(
        s.shards,
        user,
        row_start,
        source->Ok_0.extents[0].physical_end - source->Ok_0.extents[0].start,
        panel.panel,
    ) {
        Err(_) => false,
        Ok(destination) => if s.shards[user.0 as int].tile == panel.tile {
            match view_copies(
                target,
                s.shards,
                source->Ok_0,
                destination,
                ExchangeOrder::Physical,
            ) {
                Err(_) => false,
                Ok(copies) => makes_copies(s, copies, panel.tile),
            }
        } else {
            sends(transfers, source->Ok_0, destination)
        },
    }
}

/// Recorded transfers stay recorded.
pub open spec fn still_sends(before: TransfersModel, after: TransfersModel) -> bool {
    forall|a: ViewModel, b: ViewModel| sends(before, a, b) ==> #[trigger] sends(after, a, b)
}

proof fn lemma_still_on_way<M: Target>(
    target: &M,
    s: StateModel,
    t: StateModel,
    before: TransfersModel,
    after: TransfersModel,
    panel: PanelModel,
    user: LowShardId,
    row_start: u32,
)
    requires
        holds_on(s, t),
        still_sends(before, after),
        panel_on_way(target, s, before, panel, user, row_start),
    ensures
        panel_on_way(target, t, after, panel, user, row_start),
{
    let source = full_view(s.shards, panel.packed)->Ok_0;
    let destination = panel_destination(
        s.shards,
        user,
        row_start,
        source.extents[0].physical_end - source.extents[0].start,
        panel.panel,
    )->Ok_0;
    if s.shards[user.0 as int].tile == panel.tile {
        let copies = view_copies(
            target,
            s.shards,
            source,
            destination,
            ExchangeOrder::Physical,
        )->Ok_0;
        lemma_still_copies(s, t, copies, panel.tile);
    }
}

proof fn lemma_broadcast_panel<M: Target>(
    target: &M,
    s: StateModel,
    panel: PanelModel,
    source: ViewModel,
    row_start: u32,
    k: int,
    transfers: TransfersModel,
)
    requires
        0 <= k,
        full_view(s.shards, panel.packed) == Ok::<ViewModel, crate::low::LowLoweringError>(source),
        source.extents.len() > 0,
        sources_agree(transfers),
    ensures
        match broadcast_panel_from(target, s, panel, source, row_start, k, transfers) {
            Err(_) => true,
            Ok((t, more)) => {
                &&& holds_on(s, t)
                &&& still_sends(transfers, more)
                &&& sources_agree(more)
                &&& forall|u: int|
                    k <= u < panel.destinations.len() ==> panel_on_way(
                        target,
                        t,
                        more,
                        panel,
                        #[trigger] panel.destinations[u],
                        row_start,
                    )
            },
        },
    decreases panel.destinations.len() - k,
{
    if k < panel.destinations.len() {
        let user = panel.destinations[k];
        if user.0 < s.shards.len() {
            if let Ok(destination) = panel_destination(
                s.shards,
                user,
                row_start,
                source.extents[0].physical_end - source.extents[0].start,
                panel.panel,
            ) {
                if s.shards[user.0 as int].tile == panel.tile {
                    if let Ok(copies) = view_copies(
                        target,
                        s.shards,
                        source,
                        destination,
                        ExchangeOrder::Physical,
                    ) {
                        let list = on_tile(copies, panel.tile);
                        assert(stands_at(list, list, 0));
                        lemma_append_copies(s, list, 0);
                        lemma_listed_copies_are_made(s, list, copies, panel.tile);
                        if let Ok(next) = append_copies_from(s, list, 0) {
                            lemma_broadcast_panel(
                                target,
                                next,
                                panel,
                                source,
                                row_start,
                                k + 1,
                                transfers,
                            );
                            if let Ok((t, more)) = broadcast_panel_from(
                                target,
                                s,
                                panel,
                                source,
                                row_start,
                                k,
                                transfers,
                            ) {
                                lemma_holds_on(s, next, t);
                                lemma_still_on_way(
                                    target,
                                    next,
                                    t,
                                    transfers,
                                    more,
                                    panel,
                                    user,
                                    row_start,
                                );
                            }
                        }
                    }
                } else {
                    let next = add_transfer(transfers, source, destination);
                    lemma_added_transfer(transfers, source, destination);
                    lemma_broadcast_panel(target, s, panel, source, row_start, k + 1, next);
                    if let Ok((t, more)) = broadcast_panel_from(
                        target,
                        s,
                        panel,
                        source,
                        row_start,
                        k,
                        transfers,
                    ) {
                        assert(sends(more, source, destination));
                        assert forall|a: ViewModel, b: ViewModel| sends(
                            transfers,
                            a,
                            b,
                        ) implies #[trigger] sends(more, a, b) by {
                            assert(sends(next, a, b));
                        }
                    }
                }
            }
        }
    } else {
        assert(holds_on(s, s));
    }
}

/// The panels are on their way to all their users.
pub open spec fn panels_on_way<M: Target>(
    target: &M,
    s: StateModel,
    transfers: TransfersModel,
    panels: Seq<PanelModel>,
    row_start: u32,
    from: int,
) -> bool {
    forall|p: int, u: int|
        from <= p < panels.len() && 0 <= u < panels[p].destinations.len() ==> panel_on_way(
            target,
            s,
            transfers,
            panels[p],
            #[trigger] panels[p].destinations[u],
            row_start,
        )
}

pub(crate) proof fn lemma_panels_still_on_way<M: Target>(
    target: &M,
    s: StateModel,
    t: StateModel,
    before: TransfersModel,
    after: TransfersModel,
    panels: Seq<PanelModel>,
    row_start: u32,
    from: int,
)
    requires
        0 <= from,
        holds_on(s, t),
        still_sends(before, after),
        panels_on_way(target, s, before, panels, row_start, from),
    ensures
        panels_on_way(target, t, after, panels, row_start, from),
{
    assert forall|p: int, u: int|
        from <= p < panels.len() && 0 <= u < panels[p].destinations.len() implies panel_on_way(
        target,
        t,
        after,
        panels[p],
        #[trigger] panels[p].destinations[u],
        row_start,
    ) by {
        lemma_still_on_way(
            target,
            s,
            t,
            before,
            after,
            panels[p],
            panels[p].destinations[u],
            row_start,
        );
    }
}

pub(crate) proof fn lemma_broadcast_panels<M: Target>(
    target: &M,
    s: StateModel,
    panels: Seq<PanelModel>,
    row_start: u32,
    k: int,
    transfers: TransfersModel,
)
    requires
        0 <= k,
        sources_agree(transfers),
    ensures
        match broadcast_panels_from(target, s, panels, row_start, k, transfers) {
            Err(_) => true,
            Ok((t, more)) => {
                &&& holds_on(s, t)
                &&& still_sends(transfers, more)
                &&& sources_agree(more)
                &&& panels_on_way(target, t, more, panels, row_start, k)
            },
        },
    decreases panels.len() - k,
{
    if k < panels.len() {
        if let Ok(source) = full_view(s.shards, panels[k].packed) {
            if source.extents.len() > 0 {
                lemma_broadcast_panel(target, s, panels[k], source, row_start, 0, transfers);
                if let Ok((next, more)) = broadcast_panel_from(
                    target,
                    s,
                    panels[k],
                    source,
                    row_start,
                    0,
                    transfers,
                ) {
                    lemma_broadcast_panels(target, next, panels, row_start, k + 1, more);
                    if let Ok((t, most)) = broadcast_panels_from(
                        target,
                        s,
                        panels,
                        row_start,
                        k,
                        transfers,
                    ) {
                        lemma_holds_on(s, next, t);
                        assert forall|a: ViewModel, b: ViewModel| sends(
                            transfers,
                            a,
                            b,
                        ) implies #[trigger] sends(most, a, b) by {
                            assert(sends(more, a, b));
                        }
                        assert forall|p: int, u: int|
                            k <= p < panels.len() && 0 <= u
                                < panels[p].destinations.len() implies panel_on_way(
                            target,
                            t,
                            most,
                            panels[p],
                            #[trigger] panels[p].destinations[u],
                            row_start,
                        ) by {
                            if p == k {
                                assert(panel_on_way(
                                    target,
                                    next,
                                    more,
                                    panels[k],
                                    panels[k].destinations[u],
                                    row_start,
                                ));
                                lemma_still_on_way(
                                    target,
                                    next,
                                    t,
                                    more,
                                    most,
                                    panels[k],
                                    panels[k].destinations[u],
                                    row_start,
                                );
                            }
                        }
                    }
                }
            }
        }
    } else {
        assert(holds_on(s, s));
    }
}

/// A block is on the tile of a task, or its storage there receives it.
pub open spec fn block_brought(
    s: StateModel,
    ids: Seq<LowShardId>,
    head: u32,
    block_start: u32,
    staging: LowShardId,
    tile: u16,
    operand: LowShardId,
) -> bool {
    match block_source_from(s.shards, ids, head, block_start, 0) {
        Err(_) => false,
        Ok(source) => source.0 < s.shards.len() && if s.shards[source.0 as int].tile == tile {
            operand == source
        } else {
            &&& operand == staging
            &&& staging.0 < s.shards.len()
            &&& makes_exchange(
                s,
                ViewModel { shard: source, extents: s.shards[source.0 as int].extents },
                ViewModel { shard: staging, extents: s.shards[staging.0 as int].extents },
            )
        },
    }
}

/// A block is on the tile of a task, or is recorded to be sent there.
pub open spec fn block_on_way(
    shards: Seq<ShardModel>,
    transfers: TransfersModel,
    ids: Seq<LowShardId>,
    head: u32,
    block_start: u32,
    staging: LowShardId,
    tile: u16,
    operand: LowShardId,
) -> bool {
    match block_source_from(shards, ids, head, block_start, 0) {
        Err(_) => false,
        Ok(source) => source.0 < shards.len() && if shards[source.0 as int].tile == tile {
            operand == source
        } else {
            &&& operand == staging
            &&& staging.0 < shards.len()
            &&& sends(
                transfers,
                ViewModel { shard: source, extents: shards[source.0 as int].extents },
                ViewModel { shard: staging, extents: shards[staging.0 as int].extents },
            )
        },
    }
}

/// The keys and values of a block are on their way to a task, and the keys that
/// count are those of the tensor.
pub open spec fn sources_on_way(
    shards: Seq<ShardModel>,
    transfers: TransfersModel,
    keys: Seq<LowShardId>,
    values: Seq<LowShardId>,
    task: AttentionTask,
    block_start: u32,
    sources: TaskSources,
) -> bool {
    &&& block_on_way(
        shards,
        transfers,
        keys,
        task.head,
        block_start,
        task.key_staging,
        task.tile,
        sources.0,
    )
    &&& block_on_way(
        shards,
        transfers,
        values,
        task.head,
        block_start,
        task.value_staging,
        task.tile,
        sources.1,
    )
    &&& sources.2 == valid_keys(
        shards[block_source_from(shards, keys, task.head, block_start, 0)->Ok_0.0 as int],
        block_start,
    )
}

proof fn lemma_resident_block(
    shards: Seq<ShardModel>,
    ids: Seq<LowShardId>,
    head: u32,
    block_start: u32,
    staging: LowShardId,
    tile: u16,
    transfers: TransfersModel,
)
    requires
        sources_agree(transfers),
        block_source_from(shards, ids, head, block_start, 0) is Ok,
    ensures
        match resident_block(
            shards,
            block_source_from(shards, ids, head, block_start, 0)->Ok_0,
            staging,
            tile,
            transfers,
        ) {
            Err(_) => true,
            Ok((more, operand)) => {
                &&& sources_agree(more)
                &&& still_sends(transfers, more)
                &&& block_on_way(
                    shards,
                    more,
                    ids,
                    head,
                    block_start,
                    staging,
                    tile,
                    operand,
                )
            },
        },
{
    let source = block_source_from(shards, ids, head, block_start, 0)->Ok_0;
    if let Ok(from) = shard_of(shards, source) {
        if from.tile != tile {
            if let Ok(into) = full_view(shards, staging) {
                lemma_added_transfer(
                    transfers,
                    ViewModel { shard: source, extents: from.extents },
                    into,
                );
            }
        }
    }
}

proof fn lemma_block_sources<M: Target>(
    target: &M,
    shards: Seq<ShardModel>,
    keys: Seq<LowShardId>,
    values: Seq<LowShardId>,
    tasks: Seq<AttentionTask>,
    block_start: u32,
    k: int,
    transfers: TransfersModel,
    done: Seq<TaskSources>,
)
    requires
        0 <= k,
        k <= tasks.len() ==> done.len() == k,
        sources_agree(transfers),
        forall|i: int|
            0 <= i < done.len() ==> sources_on_way(
                shards,
                transfers,
                keys,
                values,
                tasks[i],
                block_start,
                #[trigger] done[i],
            ),
    ensures
        match block_sources_from(
            shards,
            keys,
            values,
            tasks,
            block_start,
            k,
            transfers,
            done,
        ) {
            Err(_) => true,
            Ok((more, all)) => {
                &&& sources_agree(more)
                &&& k <= tasks.len() ==> all.len() == tasks.len()
                &&& forall|i: int|
                    0 <= i < all.len() ==> sources_on_way(
                        shards,
                        more,
                        keys,
                        values,
                        tasks[i],
                        block_start,
                        #[trigger] all[i],
                    )
            },
        },
    decreases tasks.len() - k,
{
    if k < tasks.len() {
        let task = tasks[k];
        if let Ok(key) = block_source_from(shards, keys, task.head, block_start, 0) {
            if let Ok(value) = block_source_from(shards, values, task.head, block_start, 0) {
                lemma_resident_block(
                    shards,
                    keys,
                    task.head,
                    block_start,
                    task.key_staging,
                    task.tile,
                    transfers,
                );
                if let Ok((more, key_operand)) = resident_block(
                    shards,
                    key,
                    task.key_staging,
                    task.tile,
                    transfers,
                ) {
                    lemma_resident_block(
                        shards,
                        values,
                        task.head,
                        block_start,
                        task.value_staging,
                        task.tile,
                        more,
                    );
                    if let Ok((most, value_operand)) = resident_block(
                        shards,
                        value,
                        task.value_staging,
                        task.tile,
                        more,
                    ) {
                        let sources = (
                            key_operand,
                            value_operand,
                            valid_keys(shards[key.0 as int], block_start),
                        );
                        let next = done.push(sources);
                        assert(still_sends(transfers, most)) by {
                            assert forall|a: ViewModel, b: ViewModel| sends(
                                transfers,
                                a,
                                b,
                            ) implies #[trigger] sends(most, a, b) by {
                                assert(sends(more, a, b));
                            }
                        }
                        assert forall|i: int| 0 <= i < next.len() implies sources_on_way(
                            shards,
                            most,
                            keys,
                            values,
                            tasks[i],
                            block_start,
                            #[trigger] next[i],
                        ) by {
                            if i < done.len() {
                                assert(next[i] == done[i]);
                                assert(sources_on_way(
                                    shards,
                                    transfers,
                                    keys,
                                    values,
                                    tasks[i],
                                    block_start,
                                    done[i],
                                ));
                            } else {
                                assert(next[i] == sources);
                            }
                        }
                        lemma_block_sources(
                            target,
                            shards,
                            keys,
                            values,
                            tasks,
                            block_start,
                            k + 1,
                            most,
                            next,
                        );
                    }
                }
            }
        }
    }
}

/// A schedule brings the keys and values of a block to a task.
pub open spec fn operands_brought<M: Target>(
    target: &M,
    s: StateModel,
    keys: Seq<LowShardId>,
    values: Seq<LowShardId>,
    task: AttentionTask,
    prepared: Option<AttentionBlockModel>,
    block_start: u32,
    sources: TaskSources,
) -> bool {
    match prepared {
        None => {
            &&& block_brought(
                s,
                keys,
                task.head,
                block_start,
                task.key_staging,
                task.tile,
                sources.0,
            )
            &&& block_brought(
                s,
                values,
                task.head,
                block_start,
                task.value_staging,
                task.tile,
                sources.1,
            )
            &&& sources.2 == valid_keys(
                s.shards[block_source_from(
                    s.shards,
                    keys,
                    task.head,
                    block_start,
                    0,
                )->Ok_0.0 as int],
                block_start,
            )
        },
        Some(block) => {
            &&& sources == (task.key_staging, task.value_staging, block.valid_rows)
            &&& panels_brought(target, s, block.key_panels, 0)
            &&& panels_brought(target, s, block.value_panels, 0)
        },
    }
}

/// A schedule brings panels to all their users.
pub open spec fn panels_brought<M: Target>(
    target: &M,
    s: StateModel,
    panels: Seq<PanelModel>,
    row_start: u32,
) -> bool {
    forall|p: int, u: int|
        0 <= p < panels.len() && 0 <= u < panels[p].destinations.len() ==> panel_brought(
            target,
            s,
            panels[p],
            #[trigger] panels[p].destinations[u],
            row_start,
        )
}

pub(crate) proof fn lemma_panels_arrive<M: Target>(
    target: &M,
    s: StateModel,
    t: StateModel,
    transfers: TransfersModel,
    panels: Seq<PanelModel>,
    row_start: u32,
)
    requires
        holds_on(s, t),
        panels_on_way(target, s, transfers, panels, row_start, 0),
        forall|a: ViewModel, b: ViewModel|
            sends(transfers, a, b) ==> #[trigger] makes_exchange(t, a, b),
    ensures
        panels_brought(target, t, panels, row_start),
{
    assert forall|p: int, u: int|
        0 <= p < panels.len() && 0 <= u < panels[p].destinations.len() implies panel_brought(
        target,
        t,
        panels[p],
        #[trigger] panels[p].destinations[u],
        row_start,
    ) by {
        lemma_still_on_way(
            target,
            s,
            t,
            transfers,
            transfers,
            panels[p],
            panels[p].destinations[u],
            row_start,
        );
    }
}

pub(crate) proof fn lemma_panels_still_brought<M: Target>(
    target: &M,
    s: StateModel,
    t: StateModel,
    panels: Seq<PanelModel>,
    row_start: u32,
)
    requires
        holds_on(s, t),
        panels_brought(target, s, panels, row_start),
    ensures
        panels_brought(target, t, panels, row_start),
{
    assert forall|p: int, u: int|
        0 <= p < panels.len() && 0 <= u < panels[p].destinations.len() implies panel_brought(
        target,
        t,
        panels[p],
        #[trigger] panels[p].destinations[u],
        row_start,
    ) by {
        assert(panel_brought(target, s, panels[p], panels[p].destinations[u], row_start));
        assert forall|a: ViewModel, b: ViewModel| makes_exchange(s, a, b) implies
            #[trigger] makes_exchange(t, a, b) by {
            lemma_still_exchanges(s, t, a, b);
        }
        assert forall|copies: Seq<LocalCopy>, tile: u16| makes_copies(s, copies, tile) implies
            #[trigger] makes_copies(t, copies, tile) by {
            lemma_still_copies(s, t, copies, tile);
        }
    }
}

proof fn lemma_still_brought<M: Target>(
    target: &M,
    s: StateModel,
    t: StateModel,
    keys: Seq<LowShardId>,
    values: Seq<LowShardId>,
    task: AttentionTask,
    prepared: Option<AttentionBlockModel>,
    block_start: u32,
    sources: TaskSources,
)
    requires
        holds_on(s, t),
        operands_brought(target, s, keys, values, task, prepared, block_start, sources),
    ensures
        operands_brought(target, t, keys, values, task, prepared, block_start, sources),
{
    assert forall|a: ViewModel, b: ViewModel| makes_exchange(s, a, b) implies
        #[trigger] makes_exchange(t, a, b) by {
        lemma_still_exchanges(s, t, a, b);
    }
    if let Some(block) = prepared {
        lemma_panels_still_brought(target, s, t, block.key_panels, 0);
        lemma_panels_still_brought(target, s, t, block.value_panels, 0);
    }
}

proof fn lemma_block_operands<M: Target>(
    target: &M,
    s: StateModel,
    keys: Seq<LowShardId>,
    values: Seq<LowShardId>,
    tasks: Seq<AttentionTask>,
    prepared: Option<AttentionBlockModel>,
    block_start: u32,
    provenance: WorkProvenance,
)
    ensures
        match block_operands(
            target,
            s,
            keys,
            values,
            tasks,
            prepared,
            block_start,
            provenance,
        ) {
            Err(_) => true,
            Ok((t, sources)) => {
                &&& holds_on(s, t)
                &&& sources.len() == tasks.len()
                &&& forall|i: int|
                    0 <= i < tasks.len() ==> operands_brought(
                        target,
                        t,
                        keys,
                        values,
                        #[trigger] tasks[i],
                        prepared,
                        block_start,
                        sources[i],
                    )
            },
        },
{
    if let Ok((t, sources)) = block_operands(
        target,
        s,
        keys,
        values,
        tasks,
        prepared,
        block_start,
        provenance,
    ) {
        match prepared {
            Some(block) => {
                lemma_broadcast_panels(target, s, block.key_panels, 0, 0, Seq::empty());
                let (a, some) = broadcast_panels_from(
                    target,
                    s,
                    block.key_panels,
                    0,
                    0,
                    Seq::empty(),
                )->Ok_0;
                lemma_broadcast_panels(target, a, block.value_panels, 0, 0, some);
                let (b, transfers) = broadcast_panels_from(
                    target,
                    a,
                    block.value_panels,
                    0,
                    0,
                    some,
                )->Ok_0;
                lemma_append_phase(b, transfers, provenance, ExchangeOrder::Semantic);
                lemma_holds_on(s, a, b);
                lemma_holds_on(s, b, t);
                lemma_panels_still_on_way(
                    target,
                    a,
                    b,
                    some,
                    transfers,
                    block.key_panels,
                    0,
                    0,
                );
                lemma_panels_arrive(target, b, t, transfers, block.key_panels, 0);
                lemma_panels_arrive(target, b, t, transfers, block.value_panels, 0);
            },
            None => {
                lemma_block_sources(
                    target,
                    s.shards,
                    keys,
                    values,
                    tasks,
                    block_start,
                    0,
                    Seq::empty(),
                    Seq::empty(),
                );
                let transfers = block_sources_from(
                    s.shards,
                    keys,
                    values,
                    tasks,
                    block_start,
                    0,
                    Seq::empty(),
                    Seq::empty(),
                )->Ok_0.0;
                lemma_append_phase(s, transfers, provenance, ExchangeOrder::Semantic);
                assert forall|i: int| 0 <= i < tasks.len() implies operands_brought(
                    target,
                    t,
                    keys,
                    values,
                    #[trigger] tasks[i],
                    prepared,
                    block_start,
                    sources[i],
                ) by {
                    assert(sources_on_way(
                        s.shards,
                        transfers,
                        keys,
                        values,
                        tasks[i],
                        block_start,
                        sources[i],
                    ));
                }
            },
        }
    }
}

// ---------------------------------------------------------------- blocks

/// A schedule attends to a block for a task, with the keys and values of the
/// block: it starts the output on the first block, and finishes it on the last.
pub open spec fn attends_to<M: Target>(
    target: &M,
    s: StateModel,
    runs: AttentionRunsModel,
    keys: Seq<LowShardId>,
    values: Seq<LowShardId>,
    task: AttentionTask,
    prepared: Option<Seq<AttentionBlockModel>>,
    block: int,
    blocks: int,
    sources: TaskSources,
) -> bool {
    &&& operands_brought(
        target,
        s,
        keys,
        values,
        task,
        match prepared {
            Some(all) => Some(all[block]),
            None => None,
        },
        (block * AMP_INNER_BLOCK) as u32,
        sources,
    )
    &&& attends(s, runs, task, sources, block == 0, block + 1 == blocks)
}

/// A schedule attends to a block for a task.
pub open spec fn block_attended<M: Target>(
    target: &M,
    s: StateModel,
    runs: AttentionRunsModel,
    keys: Seq<LowShardId>,
    values: Seq<LowShardId>,
    task: AttentionTask,
    prepared: Option<Seq<AttentionBlockModel>>,
    block: int,
    blocks: int,
) -> bool {
    exists|sources: TaskSources| #[trigger]
        attends_to(
            target,
            s,
            runs,
            keys,
            values,
            task,
            prepared,
            block,
            blocks,
            sources,
        )
}

proof fn lemma_blocks_from<M: Target>(
    target: &M,
    s: StateModel,
    runs: AttentionRunsModel,
    exchange: WorkProvenance,
    keys: Seq<LowShardId>,
    values: Seq<LowShardId>,
    tasks: Seq<AttentionTask>,
    prepared: Option<Seq<AttentionBlockModel>>,
    block: int,
    blocks: int,
)
    ensures
        match blocks_from(
            target,
            s,
            runs,
            exchange,
            keys,
            values,
            tasks,
            prepared,
            block,
            blocks,
        ) {
            Err(_) => true,
            Ok(t) => {
                &&& holds_on(s, t)
                &&& forall|b: int, i: int|
                    block <= b < blocks && 0 <= i < tasks.len() ==> #[trigger] block_attended(
                        target,
                        t,
                        runs,
                        keys,
                        values,
                        tasks[i],
                        prepared,
                        b,
                        blocks,
                    )
            },
        },
    decreases blocks - block,
{
    if block < blocks {
        let panels = match prepared {
            Some(all) => Some(all[block]),
            None => None,
        };
        let start = (block * AMP_INNER_BLOCK) as u32;
        lemma_block_operands(target, s, keys, values, tasks, panels, start, exchange);
        if let Ok((a, sources)) = block_operands(
            target,
            s,
            keys,
            values,
            tasks,
            panels,
            start,
            exchange,
        ) {
            lemma_attend_from(a, runs, tasks, sources, block == 0, block + 1 == blocks, 0);
            if let Ok(b) = attend_from(
                a,
                runs,
                tasks,
                sources,
                block == 0,
                block + 1 == blocks,
                0,
            ) {
                lemma_holds_on(s, a, b);
                lemma_blocks_from(
                    target,
                    b,
                    runs,
                    exchange,
                    keys,
                    values,
                    tasks,
                    prepared,
                    block + 1,
                    blocks,
                );
                if let Ok(t) = blocks_from(
                    target,
                    s,
                    runs,
                    exchange,
                    keys,
                    values,
                    tasks,
                    prepared,
                    block,
                    blocks,
                ) {
                    lemma_holds_on(s, b, t);
                    lemma_holds_on(a, b, t);
                    assert forall|c: int, i: int|
                        block <= c < blocks && 0 <= i
                            < tasks.len() implies #[trigger] block_attended(
                        target,
                        t,
                        runs,
                        keys,
                        values,
                        tasks[i],
                        prepared,
                        c,
                        blocks,
                    ) by {
                        if c == block {
                            lemma_still_brought(
                                target,
                                a,
                                t,
                                keys,
                                values,
                                tasks[i],
                                panels,
                                start,
                                sources[i],
                            );
                            lemma_still_attends(
                                b,
                                t,
                                runs,
                                tasks[i],
                                sources[i],
                                block == 0,
                                block + 1 == blocks,
                            );
                            assert(attends_to(
                                target,
                                t,
                                runs,
                                keys,
                                values,
                                tasks[i],
                                prepared,
                                c,
                                blocks,
                                sources[i],
                            ));
                        }
                    }
                }
            }
        }
    } else {
        assert(holds_on(s, s));
    }
}

/// Attention attends to every block of keys for every part of the queries. The
/// keys and values of a block are on the tile of the task or are brought there;
/// the schedule scores them, weighs the values, and merges the result into the
/// output, which it starts on the first block and finishes on the last.
pub proof fn lemma_attention_attends_to_every_block<M: Target>(
    target: &M,
    s: StateModel,
    runs: AttentionRunsModel,
    exchange: WorkProvenance,
    keys: Seq<LowShardId>,
    values: Seq<LowShardId>,
    tasks: Seq<AttentionTask>,
    prepared: Option<Seq<AttentionBlockModel>>,
    blocks: int,
    block: int,
    i: int,
)
    requires
        0 <= block < blocks,
        0 <= i < tasks.len(),
    ensures
        match blocks_from(
            target,
            s,
            runs,
            exchange,
            keys,
            values,
            tasks,
            prepared,
            0,
            blocks,
        ) {
            Err(_) => true,
            Ok(t) => block_attended(
                target,
                t,
                runs,
                keys,
                values,
                tasks[i],
                prepared,
                block,
                blocks,
            ),
        },
{
    lemma_blocks_from(
        target,
        s,
        runs,
        exchange,
        keys,
        values,
        tasks,
        prepared,
        0,
        blocks,
    );
}

/// Attending to blocks keeps all that is scheduled before.
pub(crate) proof fn lemma_attention_keeps<M: Target>(
    target: &M,
    s: StateModel,
    runs: AttentionRunsModel,
    exchange: WorkProvenance,
    keys: Seq<LowShardId>,
    values: Seq<LowShardId>,
    tasks: Seq<AttentionTask>,
    prepared: Option<Seq<AttentionBlockModel>>,
    blocks: int,
)
    ensures
        match blocks_from(
            target,
            s,
            runs,
            exchange,
            keys,
            values,
            tasks,
            prepared,
            0,
            blocks,
        ) {
            Err(_) => true,
            Ok(t) => holds_on(s, t),
        },
{
    lemma_blocks_from(
        target,
        s,
        runs,
        exchange,
        keys,
        values,
        tasks,
        prepared,
        0,
        blocks,
    );
}

} // verus!
