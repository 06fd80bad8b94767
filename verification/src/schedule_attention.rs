//! Attention keeps a schedule sound.

use crate::attention::{
    AttentionRuns, AttentionRunsModel, AttentionSizes, TaskSources, append_scores,
    append_weighted_values, attend_from, attention_provenance, block_operands, block_plan,
    block_source_from, block_sources_from, blocked_shape, blocks_from, columns_view,
    lower_blocked_attention, prepare_operands, resident_block, tensor_rows, valid_keys,
};
use crate::attention_panels::{
    AttentionBlockModel, BlockPlan, Gathers, PanelModel, PanelRows, block_offset,
    broadcast_panel_from, broadcast_panels_from, gather_panel, key_rows_of, pack_blocks_from,
    pack_panels_from, panel_columns, panel_counts, panel_destination, panel_of, panel_owner,
    panel_storage, prepare_attention_blocks, prepare_block, prepare_blocks_from, prepare_panel,
    prepare_panels, prepare_stream_from, prepare_streams_from, staging_by_head, value_rows_of,
};
use crate::attention_tasks::{
    AttentionBufferShape, AttentionTask, all_direct, all_physical, as_kernel, attention_memory,
    attention_task, attention_tasks_from, build_attention_tasks, bytes_of, clear_queries_from,
    gather_queries_from, materialize_queries, pack_queries_from, panel_benefits, push_staging,
    query_destination, query_order, query_panel, query_storage, reuse_key_staging, task_panel,
};
use crate::attention_whole::{
    AttentionOperand, append_all_scores_from, append_all_values_from, append_operand, attend_whole,
    lower_materialized_attention, stage_blocks_from, stage_task_from, stage_tasks_from, staging_of,
    whole_shape,
};
use crate::buffers::{
    append_fill_zero, append_attention_rearrange, push_attention_buffer, push_attention_scratch,
};
use crate::copies::{on_tile, view_copies};
use crate::deferred::{
    Movement, Panel, checked_pieces_from, deferred_panel_mappings, gather_deferred_panel,
    gather_from, micro_panels, micro_panels_from, panel_source, part_mappings_from, place_from,
    relative, supports_physical_exchange, width,
};
use crate::extents::{
    aligned_pieces, extended, matrix_pieces_from, panel_mappings, row_padding, row_pieces_from,
    with_matrix,
};
use crate::fragments::{div_ceil, sat_add};
use crate::kernels::append_kernel;
use crate::lookup::{
    deferred_of, deferred_root, intersecting, local_shard, resides, value_shards,
};
use crate::low::{ExchangeOrder, LowShardId, ShardDefinition, ShardModel, ViewModel, WorkProvenance};
use crate::mid::{KernelModel, KernelSpec, MidOperation, MidValueId, OperatorRequirementsModel};
use crate::order::GroupModel;
use crate::phase::{add_transfer, append_mixed_phase, append_ordered_phase};
use crate::pointwise::operator_run;
use crate::schedule::{
    copies_reside, follows, group_follows, lemma_binary_resides, lemma_no_copies_reside,
    lemma_redefine, lemma_unary_resides,
};
use crate::schedule_data::{
    all_into, lemma_append_copies_from, lemma_append_fill_zero, lemma_append_kernel, lemma_append_mixed_phase,
    lemma_append_ordered_phase, lemma_append_attention_rearrange, lemma_local_shard_resides,
    lemma_place_resides, lemma_push_attention_buffer, lemma_push_attention_scratch, lemma_view_copies_reside,
};
use crate::state::{
    StateModel, TransfersModel, append_copies_from, full_view, has_padding, narrow_view, shard_of,
};
use crate::target::Target;
use crate::tensor::{
    AMP_COLUMN_MICRO, AMP_INNER_BLOCK, AmpOrder, BlockMajorOrder, ElementOrder, MemoryClass,
    Precision, ShardExtent,
};
use vstd::prelude::*;

verus! {

/// All that a task works on is on its tile.
pub open spec fn task_resides(shards: Seq<ShardModel>, task: AttentionTask) -> bool {
    &&& resides(shards, task.query, task.tile)
    &&& task.query_receive matches Some(receive) ==> resides(shards, receive, task.tile)
    &&& resides(shards, task.output, task.tile)
    &&& resides(shards, task.scratch, task.tile)
    &&& resides(shards, task.weights, task.tile)
    &&& resides(shards, task.key_staging, task.tile)
    &&& resides(shards, task.value_staging, task.tile)
}

#[verifier::opaque]
pub open spec fn tasks_reside(shards: Seq<ShardModel>, tasks: Seq<AttentionTask>) -> bool {
    forall|k: int| 0 <= k < tasks.len() ==> task_resides(shards, #[trigger] tasks[k])
}

pub broadcast proof fn lemma_task_still_resides(s: StateModel, t: StateModel, task: AttentionTask)
    requires
        #[trigger] follows(s, t),
        #[trigger] task_resides(s.shards, task),
    ensures
        task_resides(t.shards, task),
{
    broadcast use group_follows;

}

pub broadcast proof fn lemma_tasks_still_reside(
    s: StateModel,
    t: StateModel,
    tasks: Seq<AttentionTask>,
)
    requires
        #[trigger] follows(s, t),
        #[trigger] tasks_reside(s.shards, tasks),
    ensures
        tasks_reside(t.shards, tasks),
{
    reveal(tasks_reside);
    assert forall|k: int| 0 <= k < tasks.len() implies task_resides(
        t.shards,
        #[trigger] tasks[k],
    ) by {
        lemma_task_still_resides(s, t, tasks[k]);
    }
}

/// A panel is packed where it was gathered.
pub open spec fn panel_resides(shards: Seq<ShardModel>, panel: PanelModel) -> bool {
    &&& resides(shards, panel.packed, panel.tile)
    &&& panel.row_major matches Some(id) ==> resides(shards, id, panel.tile)
}

#[verifier::opaque]
pub open spec fn panels_reside(shards: Seq<ShardModel>, panels: Seq<PanelModel>) -> bool {
    forall|k: int| 0 <= k < panels.len() ==> panel_resides(shards, #[trigger] panels[k])
}

pub broadcast proof fn lemma_panels_still_reside(
    s: StateModel,
    t: StateModel,
    panels: Seq<PanelModel>,
)
    requires
        #[trigger] follows(s, t),
        #[trigger] panels_reside(s.shards, panels),
    ensures
        panels_reside(t.shards, panels),
{
    broadcast use group_follows;

    reveal(panels_reside);
    assert forall|k: int| 0 <= k < panels.len() implies panel_resides(
        t.shards,
        #[trigger] panels[k],
    ) by {
        assert(panel_resides(s.shards, panels[k]));
    }
}

#[verifier::opaque]
pub open spec fn blocks_reside(shards: Seq<ShardModel>, blocks: Seq<AttentionBlockModel>) -> bool {
    forall|k: int|
        0 <= k < blocks.len() ==> panels_reside(shards, (#[trigger] blocks[k]).key_panels)
            && panels_reside(shards, blocks[k].value_panels)
}

pub broadcast proof fn lemma_blocks_still_reside(
    s: StateModel,
    t: StateModel,
    blocks: Seq<AttentionBlockModel>,
)
    requires
        #[trigger] follows(s, t),
        #[trigger] blocks_reside(s.shards, blocks),
    ensures
        blocks_reside(t.shards, blocks),
{
    reveal(blocks_reside);
    assert forall|k: int| 0 <= k < blocks.len() implies panels_reside(
        t.shards,
        (#[trigger] blocks[k]).key_panels,
    ) && panels_reside(t.shards, blocks[k].value_panels) by {
        lemma_panels_still_reside(s, t, blocks[k].key_panels);
        lemma_panels_still_reside(s, t, blocks[k].value_panels);
    }
}

/// What the tasks attend to is on their tiles.
#[verifier::opaque]
pub open spec fn sources_reside(
    shards: Seq<ShardModel>,
    tasks: Seq<AttentionTask>,
    sources: Seq<TaskSources>,
    count: int,
) -> bool {
    sources.len() == count && forall|k: int|
        0 <= k < count ==> resides(shards, (#[trigger] sources[k]).0, tasks[k].tile) && resides(
            shards,
            sources[k].1,
            tasks[k].tile,
        )
}

pub broadcast proof fn lemma_sources_still_reside(
    s: StateModel,
    t: StateModel,
    tasks: Seq<AttentionTask>,
    sources: Seq<TaskSources>,
    count: int,
)
    requires
        #[trigger] follows(s, t),
        #[trigger] sources_reside(s.shards, tasks, sources, count),
    ensures
        sources_reside(t.shards, tasks, sources, count),
{
    broadcast use group_follows;

    reveal(sources_reside);
    assert forall|k: int| 0 <= k < count implies resides(
        t.shards,
        (#[trigger] sources[k]).0,
        tasks[k].tile,
    ) && resides(t.shards, sources[k].1, tasks[k].tile) by {
        assert(resides(s.shards, sources[k].0, tasks[k].tile));
    }
}

broadcast group group_attention {
    group_follows,
    lemma_task_still_resides,
    lemma_tasks_still_reside,
    lemma_panels_still_reside,
    lemma_blocks_still_reside,
    lemma_sources_still_reside,
}

pub proof fn lemma_query_storage<M: Target>(
    target: &M,
    s: StateModel,
    query: MidValueId,
    output: ShardModel,
    canonical: LowShardId,
    query_dimension: u32,
    shape: AttentionBufferShape,
)
    requires
        resides(s.shards, canonical, output.tile),
    ensures
        match query_storage(target, s, query, output, canonical, query_dimension, shape) {
            Ok((t, (query, receive))) => {
                &&& follows(s, t)
                &&& resides(t.shards, query, output.tile)
                &&& receive matches Some(id) ==> resides(t.shards, id, output.tile)
            },
            Err(_) => true,
        },
{
    broadcast use group_attention;

    let panel = query_panel(output, query_dimension);
    if deferred_root(s, query) is None {
    } else {
        lemma_push_attention_buffer(
            s,
            output.tile,
            (panel.rows, panel.rows),
            (query_dimension, shape.padded_query_dimension),
            ElementOrder::Amp(AmpOrder::Left),
        );
        if let Ok((next, buffer)) = push_attention_buffer(
            s,
            output.tile,
            (panel.rows, panel.rows),
            (query_dimension, shape.padded_query_dimension),
            ElementOrder::Amp(AmpOrder::Left),
        ) {
            if supports_physical_exchange(target, next, query, buffer) {
            } else {
                match panel_benefits(target, next, query, panel, buffer) {
                    Err(_) => {},
                    Ok(true) => {},
                    Ok(false) => {
                        lemma_push_attention_buffer(
                            next,
                            output.tile,
                            (panel.rows, panel.rows),
                            (query_dimension, query_dimension),
                            ElementOrder::RowMajor,
                        );
                    },
                }
            }
        }
    }
}

pub proof fn lemma_push_staging(
    s: StateModel,
    tile: u16,
    rows: (u32, u32),
    columns: (u32, u32),
    order: ElementOrder,
)
    ensures
        match push_staging(s, tile, rows, columns, order) {
            Ok((t, id)) => {
                &&& follows(s, t)
                &&& resides(t.shards, id, tile)
            },
            Err(_) => true,
        },
{
    broadcast use group_attention;

    lemma_push_attention_buffer(s, tile, rows, columns, order);
    if let Ok((next, id)) = push_attention_buffer(s, tile, rows, columns, order) {
        lemma_redefine(next, id, ShardDefinition::ExchangeStaging);
    }
}

pub proof fn lemma_reuse_key_staging<M: Target>(
    target: &M,
    s: StateModel,
    reuse: bool,
    weights: LowShardId,
    key_staging: LowShardId,
)
    ensures
        match reuse_key_staging(target, s, reuse, weights, key_staging) {
            Ok(t) => follows(s, t),
            Err(_) => true,
        },
{
    broadcast use group_attention;

    if !reuse {
    } else if let Ok(needed) = bytes_of(target, s.shards, weights) {
        if let Ok(available) = bytes_of(target, s.shards, key_staging) {
            if needed <= available {
                lemma_redefine(s, weights, ShardDefinition::Alias(key_staging));
            }
        }
    }
}

pub proof fn lemma_attention_memory<M: Target>(
    target: &M,
    s: StateModel,
    tile: u16,
    rows: u32,
    query_dimension: u32,
    value_dimension: u32,
    row_block: u16,
    shape: AttentionBufferShape,
)
    ensures
        match attention_memory(
            target,
            s,
            tile,
            rows,
            query_dimension,
            value_dimension,
            row_block,
            shape,
        ) {
            Ok((t, (scratch, key_staging, weights, value_staging))) => {
                &&& follows(s, t)
                &&& resides(t.shards, scratch, tile)
                &&& resides(t.shards, key_staging, tile)
                &&& resides(t.shards, weights, tile)
                &&& resides(t.shards, value_staging, tile)
            },
            Err(_) => true,
        },
{
    broadcast use group_attention;

    lemma_push_attention_scratch(
        s,
        tile,
        rows,
        shape.scratch_columns,
        Precision::F16,
        ElementOrder::Amp(AmpOrder::Left),
        MemoryClass::Ipu21Interleaved,
    );
    if let Ok((a, scratch)) = push_attention_scratch(
        s,
        tile,
        rows,
        shape.scratch_columns,
        Precision::F16,
        ElementOrder::Amp(AmpOrder::Left),
        MemoryClass::Ipu21Interleaved,
    ) {
        lemma_push_staging(
            a,
            tile,
            (shape.logical_staging_rows, shape.physical_staging_rows),
            (query_dimension, shape.padded_query_dimension),
            ElementOrder::Amp(AmpOrder::TransposedRight),
        );
        if let Ok((b, key_staging)) = push_staging(
            a,
            tile,
            (shape.logical_staging_rows, shape.physical_staging_rows),
            (query_dimension, shape.padded_query_dimension),
            ElementOrder::Amp(AmpOrder::TransposedRight),
        ) {
            lemma_push_attention_scratch(
                b,
                tile,
                rows,
                shape.state_columns,
                Precision::F16,
                ElementOrder::Amp(AmpOrder::Left),
                MemoryClass::Ipu21Standard,
            );
            if let Ok((c, weights)) = push_attention_scratch(
                b,
                tile,
                rows,
                shape.state_columns,
                Precision::F16,
                ElementOrder::Amp(AmpOrder::Left),
                MemoryClass::Ipu21Standard,
            ) {
                lemma_reuse_key_staging(
                    target,
                    c,
                    shape.reuse_key_staging_for_state,
                    weights,
                    key_staging,
                );
                if let Ok(d) = reuse_key_staging(
                    target,
                    c,
                    shape.reuse_key_staging_for_state,
                    weights,
                    key_staging,
                ) {
                    lemma_push_staging(
                        d,
                        tile,
                        (shape.logical_staging_rows, shape.physical_staging_rows),
                        (value_dimension, shape.padded_value_dimension),
                        ElementOrder::BlockMajor(
                            BlockMajorOrder::Matrix {
                                row_block,
                                column_block: AMP_COLUMN_MICRO as u16,
                            },
                        ),
                    );
                }
            }
        }
    }
}

pub proof fn lemma_attention_task<M: Target>(
    target: &M,
    s: StateModel,
    query: MidValueId,
    output: LowShardId,
    row_block: u16,
    shape: AttentionBufferShape,
)
    ensures
        match attention_task(target, s, query, output, row_block, shape) {
            Ok((t, task)) => {
                &&& follows(s, t)
                &&& task_resides(t.shards, task)
            },
            Err(_) => true,
        },
{
    broadcast use group_attention;

    if let Ok(to) = shard_of(s.shards, output) {
        if to.extents.len() != 3
            || to.tensor_type.shape.len() == 0
            || to.extents[1].physical_end <= to.extents[1].start
            || to.extents[1].physical_end - to.extents[1].start > shape.query_block_rows {
        } else {
            let rows = (to.extents[1].physical_end - to.extents[1].start) as u32;
            if let Ok(canonical) = local_shard(s, query, to.tile) {
                if let Ok(resident) = shard_of(s.shards, canonical) {
                    if resident.tensor_type.shape.len() == 0 {
                    } else {
                        let query_dimension = resident.tensor_type.shape.last();
                        let value_dimension = to.tensor_type.shape.last();
                        lemma_local_shard_resides(s, query, to.tile);
                        assert(resides(s.shards, output, to.tile));
                        lemma_query_storage(
                            target,
                            s,
                            query,
                            to,
                            canonical,
                            query_dimension,
                            shape,
                        );
                        if let Ok((a, (buffer, receive))) = query_storage(
                            target,
                            s,
                            query,
                            to,
                            canonical,
                            query_dimension,
                            shape,
                        ) {
                            lemma_attention_memory(
                                target,
                                a,
                                to.tile,
                                rows,
                                query_dimension,
                                value_dimension,
                                row_block,
                                shape,
                            );
                        }
                    }
                }
            }
        }
    }
}

pub proof fn lemma_attention_tasks_from<M: Target>(
    target: &M,
    s: StateModel,
    query: MidValueId,
    outputs: Seq<LowShardId>,
    row_block: u16,
    shape: AttentionBufferShape,
    k: int,
    done: Seq<AttentionTask>,
)
    requires
        tasks_reside(s.shards, done),
    ensures
        match attention_tasks_from(target, s, query, outputs, row_block, shape, k, done) {
            Ok((t, tasks)) => {
                &&& follows(s, t)
                &&& tasks_reside(t.shards, tasks)
            },
            Err(_) => true,
        },
    decreases outputs.len() - k,
{
    broadcast use group_attention;

    if k >= outputs.len() {
    } else {
        lemma_attention_task(target, s, query, outputs[k], row_block, shape);
        if let Ok((next, task)) = attention_task(target, s, query, outputs[k], row_block, shape) {
            assert(tasks_reside(next.shards, done.push(task))) by {
                reveal(tasks_reside);
                assert(tasks_reside(next.shards, done));
            }
            lemma_attention_tasks_from(
                target,
                next,
                query,
                outputs,
                row_block,
                shape,
                k + 1,
                done.push(task),
            );
        }
    }
}

proof fn lemma_no_tasks_reside(shards: Seq<ShardModel>)
    ensures
        tasks_reside(shards, Seq::empty()),
{
    reveal(tasks_reside);
}

pub proof fn lemma_build_attention_tasks<M: Target>(
    target: &M,
    s: StateModel,
    query: MidValueId,
    result: MidValueId,
    shape: AttentionBufferShape,
)
    ensures
        match build_attention_tasks(target, s, query, result, shape) {
            Ok((t, tasks)) => {
                &&& follows(s, t)
                &&& tasks_reside(t.shards, tasks)
            },
            Err(_) => true,
        },
{
    broadcast use group_attention;

    lemma_no_tasks_reside(s.shards);
    if shape.physical_staging_rows > u16::MAX {
    } else if let Ok(outputs) = value_shards(s, result) {
        lemma_attention_tasks_from(
            target,
            s,
            query,
            outputs,
            shape.physical_staging_rows as u16,
            shape,
            0,
            Seq::empty(),
        );
    }
}

pub proof fn lemma_clear_queries_from(
    s: StateModel,
    tasks: Seq<AttentionTask>,
    provenance: WorkProvenance,
    k: int,
)
    ensures
        match clear_queries_from(s, tasks, provenance, k) {
            Ok(t) => follows(s, t),
            Err(_) => true,
        },
    decreases tasks.len() - k,
{
    broadcast use group_attention;

    if k >= tasks.len() {
    } else if let Ok(shard) = shard_of(s.shards, tasks[k].query) {
        if has_padding(shard.extents) {
            lemma_append_fill_zero(s, tasks[k].query, provenance);
            if let Ok(next) = append_fill_zero(s, tasks[k].query, provenance) {
                lemma_clear_queries_from(next, tasks, provenance, k + 1);
            }
        } else {
            lemma_clear_queries_from(s, tasks, provenance, k + 1);
        }
    }
}

pub proof fn lemma_pack_queries_from(
    s: StateModel,
    tasks: Seq<AttentionTask>,
    provenance: WorkProvenance,
    k: int,
)
    requires
        0 <= k,
        tasks_reside(s.shards, tasks),
    ensures
        match pack_queries_from(s, tasks, provenance, k) {
            Ok(t) => follows(s, t),
            Err(_) => true,
        },
    decreases tasks.len() - k,
{
    broadcast use group_attention;

    assert(k < tasks.len() ==> task_resides(s.shards, tasks[k])) by {
        reveal(tasks_reside);
    }
    if k >= tasks.len() {
    } else if let Some(receive) = tasks[k].query_receive {
        lemma_append_attention_rearrange(s, tasks[k].tile, receive, tasks[k].query, 2, as_kernel(provenance));
        if let Ok(next) = append_attention_rearrange(
            s,
            tasks[k].tile,
            receive,
            tasks[k].query,
            2,
            as_kernel(provenance),
        ) {
            lemma_pack_queries_from(next, tasks, provenance, k + 1);
        }
    }
}

pub proof fn lemma_materialize_queries<M: Target>(
    target: &M,
    s: StateModel,
    query: MidValueId,
    tasks: Seq<AttentionTask>,
    provenance: WorkProvenance,
)
    requires
        tasks_reside(s.shards, tasks),
    ensures
        match materialize_queries(target, s, query, tasks, provenance) {
            Ok(t) => follows(s, t),
            Err(_) => true,
        },
{
    broadcast use group_attention;

    let physical = all_physical(target, s, query, tasks);
    lemma_clear_queries_from(s, tasks, provenance, 0);
    if let Ok(a) = (if all_direct(tasks) && !physical {
        clear_queries_from(s, tasks, provenance, 0)
    } else {
        Ok(s)
    }) {
        assert(follows(s, a));
        if let Ok((transfers, copies)) = gather_queries_from(
            target,
            a,
            query,
            tasks,
            query_order(physical),
            0,
            (Seq::empty(), Seq::empty()),
        ) {
            lemma_no_copies_reside(a.shards);
            lemma_gather_queries(
                target,
                a,
                query,
                tasks,
                query_order(physical),
                0,
                (Seq::empty(), Seq::empty()),
            );
            lemma_append_copies_from(a, copies, 0);
            if let Ok(b) = append_copies_from(a, copies, 0) {
                lemma_append_ordered_phase(b, transfers, provenance, query_order(physical));
                if let Ok(c) = append_ordered_phase(
                    b,
                    transfers,
                    provenance,
                    query_order(physical),
                ) {
                    if physical {
                    } else {
                        lemma_pack_queries_from(c, tasks, provenance, 0);
                    }
                }
            }
        }
    }
}

proof fn lemma_parts_into(
    parts: Seq<ViewModel>,
    base: Seq<ShardExtent>,
    destination: LowShardId,
    elements: u64,
    k: int,
    covered: u64,
    done: Seq<(ViewModel, ViewModel)>,
)
    requires
        all_into(done, destination),
    ensures
        match part_mappings_from(parts, base, destination, elements, k, covered, done) {
            Ok(mappings) => all_into(mappings, destination),
            Err(_) => true,
        },
    decreases parts.len() - k,
{
    if k < parts.len() {
        let part = parts[k].extents;
        lemma_parts_into(
            parts,
            base,
            destination,
            elements,
            k + 1,
            sat_add(covered, (width(part[1]) * width(part[2])) as u64),
            done.push(
                (
                    parts[k],
                    ViewModel {
                        shard: destination,
                        extents: seq![
                            relative(0, part[1], base[1].start),
                            relative(1, part[2], base[2].start),
                        ],
                    },
                ),
            ),
        );
    }
}

proof fn lemma_row_pieces_into(
    source: ViewModel,
    destination: ViewModel,
    row: (ShardExtent, ShardExtent),
    columns: Seq<(ShardExtent, ShardExtent)>,
    c: int,
    done: Seq<(ViewModel, ViewModel)>,
)
    requires
        all_into(done, destination.shard),
    ensures
        all_into(
            row_pieces_from(source, destination, row, columns, c, done),
            destination.shard,
        ),
    decreases columns.len() - c,
{
    if c < columns.len() {
        lemma_row_pieces_into(
            source,
            destination,
            row,
            columns,
            c + 1,
            done.push(
                (
                    ViewModel {
                        shard: source.shard,
                        extents: with_matrix(source.extents, row.0, columns[c].0),
                    },
                    ViewModel {
                        shard: destination.shard,
                        extents: with_matrix(destination.extents, row.1, columns[c].1),
                    },
                ),
            ),
        );
    }
}

proof fn lemma_matrix_pieces_into(
    source: ViewModel,
    destination: ViewModel,
    rows: Seq<(ShardExtent, ShardExtent)>,
    columns: Seq<(ShardExtent, ShardExtent)>,
    r: int,
    done: Seq<(ViewModel, ViewModel)>,
)
    requires
        all_into(done, destination.shard),
    ensures
        all_into(
            matrix_pieces_from(source, destination, rows, columns, r, done),
            destination.shard,
        ),
    decreases rows.len() - r,
{
    if r < rows.len() {
        lemma_row_pieces_into(source, destination, rows[r], columns, 0, done);
        lemma_matrix_pieces_into(
            source,
            destination,
            rows,
            columns,
            r + 1,
            row_pieces_from(source, destination, rows[r], columns, 0, done),
        );
    }
}

proof fn lemma_panel_mappings_into(
    from: ShardModel,
    source: ViewModel,
    to: ShardModel,
    destination: ViewModel,
)
    ensures
        match panel_mappings(from, source, to, destination) {
            Ok(pieces) => all_into(pieces, destination.shard),
            Err(_) => true,
        },
{
    let m = source.extents.len() as int;
    let n = destination.extents.len() as int;
    if let Ok(pieces) = panel_mappings(from, source, to, destination) {
        let padding = row_padding(
            source.extents[m - 2],
            from.extents[m - 2],
            from.tensor_type.shape[m - 2],
            destination.extents[n - 2],
            to.extents[n - 2],
            to.tensor_type.shape[n - 2],
        )->Ok_0;
        let rows = aligned_pieces(
            extended(source.extents[m - 2], padding),
            from.extents[m - 2].start,
            extended(destination.extents[n - 2], padding),
            to.extents[n - 2].start,
            AMP_COLUMN_MICRO,
            AMP_COLUMN_MICRO,
        )->Ok_0;
        let columns = aligned_pieces(
            source.extents[m - 1],
            from.extents[m - 1].start,
            destination.extents[n - 1],
            to.extents[n - 1].start,
            AMP_COLUMN_MICRO,
            AMP_COLUMN_MICRO,
        )->Ok_0;
        lemma_matrix_pieces_into(source, destination, rows, columns, 0, Seq::empty());
    }
}

proof fn lemma_checked_into<M: Target>(
    target: &M,
    shards: Seq<ShardModel>,
    pieces: Seq<(ViewModel, ViewModel)>,
    destination: LowShardId,
    k: int,
    done: Seq<(ViewModel, ViewModel)>,
)
    requires
        0 <= k,
        all_into(pieces, destination),
        all_into(done, destination),
    ensures
        match checked_pieces_from(target, shards, pieces, k, done) {
            Ok(Some(more)) => all_into(more, destination),
            _ => true,
        },
    decreases pieces.len() - k,
{
    if k < pieces.len() {
        lemma_checked_into(target, shards, pieces, destination, k + 1, done.push(pieces[k]));
    }
}

proof fn lemma_micro_panels_into<M: Target>(
    target: &M,
    shards: Seq<ShardModel>,
    mapping: (ViewModel, ViewModel),
)
    ensures
        match micro_panels(target, shards, seq![mapping]) {
            Ok(Some(pieces)) => all_into(pieces, mapping.1.shard),
            _ => true,
        },
{
    reveal_with_fuel(micro_panels_from, 2);
    let mappings = seq![mapping];
    assert(mappings[0] == mapping);
    if let Ok(from) = shard_of(shards, mapping.0.shard) {
        if let Ok(to) = shard_of(shards, mapping.1.shard) {
            lemma_panel_mappings_into(from, mapping.0, to, mapping.1);
            if let Ok(pieces) = panel_mappings(from, mapping.0, to, mapping.1) {
                lemma_checked_into(
                    target,
                    shards,
                    pieces,
                    mapping.1.shard,
                    0,
                    Seq::empty(),
                );
            }
        }
    }
}

proof fn lemma_gather_resides<M: Target>(
    target: &M,
    shards: Seq<ShardModel>,
    mappings: Seq<(ViewModel, ViewModel)>,
    destination: LowShardId,
    tile: u16,
    order: ExchangeOrder,
    k: int,
    done: Movement,
)
    requires
        0 <= k,
        all_into(mappings, destination),
        resides(shards, destination, tile),
        copies_reside(shards, done.1),
    ensures
        match gather_from(target, shards, mappings, tile, order, k, done) {
            Ok(more) => copies_reside(shards, more.1),
            Err(_) => true,
        },
    decreases mappings.len() - k,
{
    if k < mappings.len() {
        assert(mappings[k].1.shard == destination);
        lemma_micro_panels_into(target, shards, mappings[k]);
        let pieces = match order {
            ExchangeOrder::Semantic => Ok(Some(seq![mappings[k]])),
            ExchangeOrder::Physical => micro_panels(target, shards, seq![mappings[k]]),
        };
        if let Ok(Some(pieces)) = pieces {
            assert(all_into(pieces, destination));
            lemma_place_resides(target, shards, pieces, destination, tile, order, 0, done);
            if let Ok(more) = place_from(target, shards, pieces, tile, order, 0, done) {
                lemma_gather_resides(
                    target,
                    shards,
                    mappings,
                    destination,
                    tile,
                    order,
                    k + 1,
                    more,
                );
            }
        }
    }
}

/// Gathering a panel adds copies only on the tile of its destination.
pub proof fn lemma_gather_deferred_panel<M: Target>(
    target: &M,
    s: StateModel,
    value: MidValueId,
    panel: Panel,
    destination: LowShardId,
    order: ExchangeOrder,
    done: Movement,
)
    requires
        copies_reside(s.shards, done.1),
    ensures
        match gather_deferred_panel(target, s, value, panel, destination, order, done) {
            Ok(more) => copies_reside(s.shards, more.1),
            Err(_) => true,
        },
{
    if let Ok(into) = shard_of(s.shards, destination) {
        if let Ok(mappings) = deferred_panel_mappings(s, value, panel, destination) {
            let root = deferred_root(s, value)->Some_0;
            let deferred = deferred_of(s, root)->Some_0;
            let ids = value_shards(s, value)->Ok_0;
            let logical = shard_of(s.shards, ids[0])->Ok_0;
            let source = shard_of(s.shards, deferred.shards[0])->Ok_0;
            let base = panel_source(
                deferred.transform,
                source.tensor_type.shape,
                logical.tensor_type.shape,
                panel,
            )->Some_0;
            lemma_parts_into(
                intersecting(s.shards, deferred.shards, base, into.tile),
                base,
                destination,
                (panel.rows * panel.columns) as u64,
                0,
                0,
                Seq::empty(),
            );
            lemma_gather_resides(
                target,
                s.shards,
                mappings,
                destination,
                into.tile,
                order,
                0,
                done,
            );
        }
    }
}

proof fn lemma_gather_queries<M: Target>(
    target: &M,
    s: StateModel,
    query: MidValueId,
    tasks: Seq<AttentionTask>,
    order: ExchangeOrder,
    k: int,
    done: Movement,
)
    requires
        copies_reside(s.shards, done.1),
    ensures
        match gather_queries_from(target, s, query, tasks, order, k, done) {
            Ok(more) => copies_reside(s.shards, more.1),
            Err(_) => true,
        },
    decreases tasks.len() - k,
{
    if k < tasks.len() {
        let panel = task_panel(tasks[k]);
        let destination = query_destination(tasks[k]);
        lemma_gather_deferred_panel(target, s, query, panel, destination, order, done);
        if let Ok(more) = gather_deferred_panel(
            target,
            s,
            query,
            panel,
            destination,
            order,
            done,
        ) {
            lemma_gather_queries(target, s, query, tasks, order, k + 1, more);
        }
    }
}

pub proof fn lemma_gather_panel<M: Target>(
    target: &M,
    s: StateModel,
    value: MidValueId,
    panel: Panel,
    destination: LowShardId,
    physical: bool,
    gathers: Gathers,
)
    ensures
        match gather_panel(target, s, value, panel, destination, physical, gathers) {
            Ok((t, _)) => follows(s, t),
            Err(_) => true,
        },
{
    broadcast use group_attention;

    if let Ok((transfers, copies)) = gather_deferred_panel(
        target,
        s,
        value,
        panel,
        destination,
        if physical { ExchangeOrder::Physical } else { ExchangeOrder::Semantic },
        (if physical { gathers.1 } else { gathers.0 }, Seq::empty()),
    ) {
        lemma_no_copies_reside(s.shards);
        lemma_gather_deferred_panel(
            target,
            s,
            value,
            panel,
            destination,
            if physical { ExchangeOrder::Physical } else { ExchangeOrder::Semantic },
            (if physical { gathers.1 } else { gathers.0 }, Seq::empty()),
        );
        lemma_append_copies_from(s, copies, 0);
    }
}

pub proof fn lemma_panel_storage<M: Target>(
    target: &M,
    s: StateModel,
    rows: PanelRows,
    panel: Panel,
    tile: u16,
    packed: LowShardId,
    provenance: WorkProvenance,
)
    ensures
        match panel_storage(target, s, rows, panel, tile, packed, provenance) {
            Ok((t, (row_major, _))) => {
                &&& follows(s, t)
                &&& row_major matches Some(id) ==> resides(t.shards, id, tile)
            },
            Err(_) => true,
        },
{
    broadcast use group_attention;

    if supports_physical_exchange(target, s, rows.value, packed) {
    } else {
        match panel_benefits(target, s, rows.value, panel, packed) {
            Err(_) => {},
            Ok(true) => {
                if let Ok(shard) = shard_of(s.shards, packed) {
                    if has_padding(shard.extents) {
                        lemma_append_fill_zero(s, packed, provenance);
                    }
                }
            },
            Ok(false) => {
                lemma_push_attention_buffer(
                    s,
                    tile,
                    (rows.rows, rows.rows),
                    (panel.columns, panel.columns),
                    ElementOrder::RowMajor,
                );
            },
        }
    }
}

pub proof fn lemma_prepare_panel<M: Target>(
    target: &M,
    s: StateModel,
    rows: PanelRows,
    stream: u32,
    users: Seq<LowShardId>,
    panel: u32,
    gathers: Gathers,
    provenance: WorkProvenance,
)
    ensures
        match prepare_panel(target, s, rows, stream, users, panel, gathers, provenance) {
            Ok((t, (_, panel_model))) => {
                &&& follows(s, t)
                &&& panel_resides(t.shards, panel_model)
            },
            Err(_) => true,
        },
{
    broadcast use group_attention;

    if let Ok(owner) = shard_of(s.shards, users[panel_owner(rows, panel, users.len())]) {
        lemma_push_attention_buffer(
            s,
            owner.tile,
            (rows.rows, AMP_INNER_BLOCK),
            (panel_columns(rows, panel), AMP_COLUMN_MICRO),
            rows.order,
        );
        if let Ok((a, packed)) = push_attention_buffer(
            s,
            owner.tile,
            (rows.rows, AMP_INNER_BLOCK),
            (panel_columns(rows, panel), AMP_COLUMN_MICRO),
            rows.order,
        ) {
            lemma_panel_storage(
                target,
                a,
                rows,
                panel_of(rows, stream, panel),
                owner.tile,
                packed,
                provenance,
            );
            if let Ok((b, (row_major, physical))) = panel_storage(
                target,
                a,
                rows,
                panel_of(rows, stream, panel),
                owner.tile,
                packed,
                provenance,
            ) {
                lemma_gather_panel(
                    target,
                    b,
                    rows.value,
                    panel_of(rows, stream, panel),
                    match row_major { Some(id) => id, None => packed},
                    physical,
                    gathers,
                );
            }
        }
    }
}

pub proof fn lemma_prepare_stream_from<M: Target>(
    target: &M,
    s: StateModel,
    rows: PanelRows,
    stream: u32,
    users: Seq<LowShardId>,
    panel: int,
    panels: int,
    gathers: Gathers,
    done: Seq<PanelModel>,
    provenance: WorkProvenance,
)
    requires
        panels_reside(s.shards, done),
    ensures
        match prepare_stream_from(
            target,
            s,
            rows,
            stream,
            users,
            panel,
            panels,
            gathers,
            done,
            provenance,
        ) {
            Ok((t, (_, prepared))) => {
                &&& follows(s, t)
                &&& panels_reside(t.shards, prepared)
            },
            Err(_) => true,
        },
    decreases panels - panel,
{
    broadcast use group_attention;

    if panel >= panels {
    } else if panel_columns(rows, panel as u32) == 0 {
        lemma_prepare_stream_from(
            target,
            s,
            rows,
            stream,
            users,
            panel + 1,
            panels,
            gathers,
            done,
            provenance,
        );
    } else {
        lemma_prepare_panel(target, s, rows, stream, users, panel as u32, gathers, provenance);
        if let Ok((next, (more, prepared))) = prepare_panel(
            target,
            s,
            rows,
            stream,
            users,
            panel as u32,
            gathers,
            provenance,
        ) {
            assert(panels_reside(next.shards, done.push(prepared))) by {
                reveal(panels_reside);
                assert(panels_reside(next.shards, done));
            }
            lemma_prepare_stream_from(
                target,
                next,
                rows,
                stream,
                users,
                panel + 1,
                panels,
                more,
                done.push(prepared),
                provenance,
            );
        }
    }
}

pub proof fn lemma_prepare_streams_from<M: Target>(
    target: &M,
    s: StateModel,
    rows: PanelRows,
    streams: Seq<GroupModel<LowShardId>>,
    k: int,
    gathers: Gathers,
    done: Seq<PanelModel>,
    provenance: WorkProvenance,
)
    requires
        panels_reside(s.shards, done),
    ensures
        match prepare_streams_from(target, s, rows, streams, k, gathers, done, provenance) {
            Ok((t, (_, prepared))) => {
                &&& follows(s, t)
                &&& panels_reside(t.shards, prepared)
            },
            Err(_) => true,
        },
    decreases streams.len() - k,
{
    broadcast use group_attention;

    if k >= streams.len() {
    } else {
        lemma_prepare_stream_from(
            target,
            s,
            rows,
            streams[k].key[0],
            streams[k].items,
            0,
            div_ceil(rows.physical_columns as int, AMP_COLUMN_MICRO as int),
            gathers,
            done,
            provenance,
        );
        if let Ok((next, (more, prepared))) = prepare_stream_from(
            target,
            s,
            rows,
            streams[k].key[0],
            streams[k].items,
            0,
            div_ceil(rows.physical_columns as int, AMP_COLUMN_MICRO as int),
            gathers,
            done,
            provenance,
        ) {
            lemma_prepare_streams_from(
                target,
                next,
                rows,
                streams,
                k + 1,
                more,
                prepared,
                provenance,
            );
        }
    }
}

pub proof fn lemma_prepare_panels<M: Target>(
    target: &M,
    s: StateModel,
    rows: PanelRows,
    streams: Seq<GroupModel<LowShardId>>,
    gathers: Gathers,
    provenance: WorkProvenance,
)
    ensures
        match prepare_panels(target, s, rows, streams, gathers, provenance) {
            Ok((t, (_, prepared))) => {
                &&& follows(s, t)
                &&& panels_reside(t.shards, prepared)
            },
            Err(_) => true,
        },
{
    broadcast use group_attention;

    reveal(panels_reside);
    if rows.physical_columns == 0 || rows.rows == 0 {
    } else {
        lemma_prepare_streams_from(target, s, rows, streams, 0, gathers, Seq::empty(), provenance);
    }
}

pub proof fn lemma_prepare_block<M: Target>(
    target: &M,
    s: StateModel,
    plan: BlockPlan,
    keys: Seq<GroupModel<LowShardId>>,
    values: Seq<GroupModel<LowShardId>>,
    block: int,
    gathers: Gathers,
    provenance: WorkProvenance,
)
    ensures
        match prepare_block(target, s, plan, keys, values, block, gathers, provenance) {
            Ok((t, (_, block_model))) => {
                &&& follows(s, t)
                &&& panels_reside(t.shards, block_model.key_panels)
                &&& panels_reside(t.shards, block_model.value_panels)
            },
            Err(_) => true,
        },
{
    broadcast use group_attention;

    lemma_prepare_panels(target, s, key_rows_of(plan, block), keys, gathers, provenance);
    if let Ok((a, (more, key_panels))) = prepare_panels(
        target,
        s,
        key_rows_of(plan, block),
        keys,
        gathers,
        provenance,
    ) {
        if plan.block_rows > u16::MAX {
        } else if block_offset(plan, block) + panel_counts(plan).0 > u32::MAX {
        } else {
            lemma_prepare_panels(target, a, value_rows_of(plan, block), values, more, provenance);
        }
    }
}

pub proof fn lemma_prepare_blocks_from<M: Target>(
    target: &M,
    s: StateModel,
    plan: BlockPlan,
    keys: Seq<GroupModel<LowShardId>>,
    values: Seq<GroupModel<LowShardId>>,
    block: int,
    gathers: Gathers,
    done: Seq<AttentionBlockModel>,
    provenance: WorkProvenance,
)
    requires
        blocks_reside(s.shards, done),
        done.len() == block,
    ensures
        match prepare_blocks_from(target, s, plan, keys, values, block, gathers, done, provenance) {
            Ok((t, (_, prepared))) => {
                &&& follows(s, t)
                &&& blocks_reside(t.shards, prepared)
                &&& prepared.len() >= div_ceil(plan.key_rows as int, plan.block_rows as int)
            },
            Err(_) => true,
        },
    decreases div_ceil(plan.key_rows as int, plan.block_rows as int) - block,
{
    broadcast use group_attention;

    if block >= div_ceil(plan.key_rows as int, plan.block_rows as int) {
    } else {
        lemma_prepare_block(target, s, plan, keys, values, block, gathers, provenance);
        if let Ok((next, (more, prepared))) = prepare_block(
            target,
            s,
            plan,
            keys,
            values,
            block,
            gathers,
            provenance,
        ) {
            assert(blocks_reside(next.shards, done.push(prepared))) by {
                reveal(blocks_reside);
                assert(blocks_reside(next.shards, done));
            }
            lemma_prepare_blocks_from(
                target,
                next,
                plan,
                keys,
                values,
                block + 1,
                more,
                done.push(prepared),
                provenance,
            );
        }
    }
}

pub proof fn lemma_pack_panels_from(
    s: StateModel,
    panels: Seq<PanelModel>,
    provenance: WorkProvenance,
    k: int,
)
    requires
        0 <= k,
        panels_reside(s.shards, panels),
    ensures
        match pack_panels_from(s, panels, provenance, k) {
            Ok(t) => follows(s, t),
            Err(_) => true,
        },
    decreases panels.len() - k,
{
    broadcast use group_attention;

    assert(k < panels.len() ==> panel_resides(s.shards, panels[k])) by {
        reveal(panels_reside);
    }
    if k >= panels.len() {
    } else {
        match panels[k].row_major {
            None => {
                lemma_pack_panels_from(s, panels, provenance, k + 1);
            },
            Some(row_major) => {
                lemma_append_attention_rearrange(
                    s,
                    panels[k].tile,
                    row_major,
                    panels[k].packed,
                    2,
                    as_kernel(provenance),
                );
                if let Ok(next) = append_attention_rearrange(
                    s,
                    panels[k].tile,
                    row_major,
                    panels[k].packed,
                    2,
                    as_kernel(provenance),
                ) {
                    lemma_pack_panels_from(next, panels, provenance, k + 1);
                }
            },
        }
    }
}

pub proof fn lemma_pack_blocks_from(
    s: StateModel,
    blocks: Seq<AttentionBlockModel>,
    provenance: WorkProvenance,
    k: int,
)
    requires
        0 <= k,
        blocks_reside(s.shards, blocks),
    ensures
        match pack_blocks_from(s, blocks, provenance, k) {
            Ok(t) => follows(s, t),
            Err(_) => true,
        },
    decreases blocks.len() - k,
{
    broadcast use group_attention;

    assert(k < blocks.len() ==> panels_reside(s.shards, blocks[k].key_panels) && panels_reside(
        s.shards,
        blocks[k].value_panels,
    )) by {
        reveal(blocks_reside);
    }
    if k >= blocks.len() {
    } else {
        lemma_pack_panels_from(s, blocks[k].key_panels, provenance, 0);
        if let Ok(a) = pack_panels_from(s, blocks[k].key_panels, provenance, 0) {
            lemma_pack_panels_from(a, blocks[k].value_panels, provenance, 0);
            if let Ok(b) = pack_panels_from(a, blocks[k].value_panels, provenance, 0) {
                lemma_pack_blocks_from(b, blocks, provenance, k + 1);
            }
        }
    }
}

pub proof fn lemma_prepare_attention_blocks<M: Target>(
    target: &M,
    s: StateModel,
    plan: BlockPlan,
    tasks: Seq<AttentionTask>,
    provenance: WorkProvenance,
)
    ensures
        match prepare_attention_blocks(target, s, plan, tasks, provenance) {
            Ok((t, prepared)) => {
                &&& follows(s, t)
                &&& blocks_reside(t.shards, prepared)
                &&& prepared.len() >= div_ceil(plan.key_rows as int, plan.block_rows as int)
            },
            Err(_) => true,
        },
{
    broadcast use group_attention;

    assert(blocks_reside(s.shards, Seq::empty())) by {
        reveal(blocks_reside);
    }
    lemma_prepare_blocks_from(
        target,
        s,
        plan,
        staging_by_head(tasks, true, tasks.len() as int),
        staging_by_head(tasks, false, tasks.len() as int),
        0,
        (Seq::empty(), Seq::empty()),
        Seq::empty(),
        provenance,
    );
    if let Ok((a, (gathers, blocks))) = prepare_blocks_from(
        target,
        s,
        plan,
        staging_by_head(tasks, true, tasks.len() as int),
        staging_by_head(tasks, false, tasks.len() as int),
        0,
        (Seq::empty(), Seq::empty()),
        Seq::empty(),
        provenance,
    ) {
        lemma_append_mixed_phase(a, gathers.0, gathers.1, provenance);
        if let Ok(b) = append_mixed_phase(a, gathers.0, gathers.1, provenance) {
            lemma_pack_blocks_from(b, blocks, provenance, 0);
        }
    }
}

pub proof fn lemma_broadcast_panel_from<M: Target>(
    target: &M,
    s: StateModel,
    panel: PanelModel,
    source: ViewModel,
    row_start: u32,
    k: int,
    transfers: TransfersModel,
)
    requires
        resides(s.shards, source.shard, panel.tile),
    ensures
        match broadcast_panel_from(target, s, panel, source, row_start, k, transfers) {
            Ok((t, _)) => follows(s, t),
            Err(_) => true,
        },
    decreases panel.destinations.len() - k,
{
    broadcast use group_attention;

    if k >= panel.destinations.len() {
    } else if let Ok(user) = shard_of(s.shards, panel.destinations[k]) {
        if let Ok(destination) = panel_destination(
            s.shards,
            panel.destinations[k],
            row_start,
            source.extents[0].physical_end - source.extents[0].start,
            panel.panel,
        ) {
            if user.tile == panel.tile {
                if let Ok(copies) = view_copies(
                    target,
                    s.shards,
                    source,
                    destination,
                    ExchangeOrder::Physical,
                ) {
                    lemma_no_copies_reside(s.shards);
                    lemma_view_copies_reside(
                        target,
                        s.shards,
                        source,
                        destination,
                        panel.tile,
                        ExchangeOrder::Physical,
                        Seq::empty(),
                    );
                    lemma_append_copies_from(s, on_tile(copies, panel.tile), 0);
                    if let Ok(next) = append_copies_from(s, on_tile(copies, panel.tile), 0) {
                        lemma_broadcast_panel_from(
                            target,
                            next,
                            panel,
                            source,
                            row_start,
                            k + 1,
                            transfers,
                        );
                    }
                }
            } else {
                lemma_broadcast_panel_from(
                    target,
                    s,
                    panel,
                    source,
                    row_start,
                    k + 1,
                    add_transfer(transfers, source, destination),
                );
            }
        }
    }
}

pub proof fn lemma_broadcast_panels_from<M: Target>(
    target: &M,
    s: StateModel,
    panels: Seq<PanelModel>,
    row_start: u32,
    k: int,
    transfers: TransfersModel,
)
    requires
        0 <= k,
        panels_reside(s.shards, panels),
    ensures
        match broadcast_panels_from(target, s, panels, row_start, k, transfers) {
            Ok((t, _)) => follows(s, t),
            Err(_) => true,
        },
    decreases panels.len() - k,
{
    broadcast use group_attention;

    if k >= panels.len() {
    } else if let Ok(source) = full_view(s.shards, panels[k].packed) {
        if source.extents.len() == 0 || source.extents[0].physical_end < source.extents[0].start {
        } else {
            assert(panel_resides(s.shards, panels[k])) by {
                reveal(panels_reside);
            }
            lemma_broadcast_panel_from(target, s, panels[k], source, row_start, 0, transfers);
            if let Ok((next, more)) = broadcast_panel_from(
                target,
                s,
                panels[k],
                source,
                row_start,
                0,
                transfers,
            ) {
                lemma_broadcast_panels_from(target, next, panels, row_start, k + 1, more);
            }
        }
    }
}

pub proof fn lemma_append_scores(
    s: StateModel,
    runs: AttentionRunsModel,
    task: AttentionTask,
    key: LowShardId,
    key_columns: u32,
)
    requires
        task_resides(s.shards, task),
        resides(s.shards, key, task.tile),
    ensures
        match append_scores(s, runs, task, key, key_columns) {
            Ok(t) => follows(s, t),
            Err(_) => true,
        },
{
    broadcast use group_attention;

    if let Ok(scores) = columns_view(s.shards, task.scratch, runs.padded_key_columns) {
        if let Ok(query) = full_view(s.shards, task.query) {
            if let Ok(keys) = full_view(s.shards, key) {
                let product = operator_run(
                    runs.provenance,
                    runs.query_key,
                    seq![seq![query], seq![keys]],
                    scores,
                    runs.requirements,
                );
                lemma_binary_resides(s.shards, product, query, keys, task.tile);
                lemma_append_kernel(s, task.tile, product);
                if let Ok(a) = append_kernel(s, task.tile, product) {
                    if let Ok(weights) = full_view(a.shards, task.weights) {
                        let softmax = operator_run(
                            runs.provenance,
                            KernelSpec::AttentionSoftmax {
                                head_dimension: task.query_dimension,
                                key_columns,
                                padded_key_columns: runs.padded_key_columns,
                            },
                            seq![seq![scores]],
                            weights,
                            runs.requirements,
                        );
                        assert(resides(s.shards, scores.shard, task.tile));
                        lemma_unary_resides(a.shards, softmax, scores, task.tile);
                        lemma_append_kernel(a, task.tile, softmax);
                    }
                }
            }
        }
    }
}

pub proof fn lemma_append_weighted_values(
    s: StateModel,
    runs: AttentionRunsModel,
    task: AttentionTask,
    value: LowShardId,
    initial: bool,
    final_block: bool,
)
    requires
        task_resides(s.shards, task),
        resides(s.shards, value, task.tile),
    ensures
        match append_weighted_values(s, runs, task, value, initial, final_block) {
            Ok(t) => follows(s, t),
            Err(_) => true,
        },
{
    broadcast use group_attention;

    if let Ok(probabilities) = columns_view(s.shards, task.weights, runs.padded_key_columns) {
        if let Ok(block) = columns_view(s.shards, task.scratch, runs.padded_value_dimension) {
            if let Ok(values) = full_view(s.shards, value) {
                let product = operator_run(
                    runs.provenance,
                    runs.probability_value,
                    seq![seq![probabilities], seq![values]],
                    block,
                    runs.requirements,
                );
                lemma_binary_resides(s.shards, product, probabilities, values, task.tile);
                lemma_append_kernel(s, task.tile, product);
                if let Ok(a) = append_kernel(s, task.tile, product) {
                    if let Ok(weights) = full_view(a.shards, task.weights) {
                        if let Ok(output) = full_view(a.shards, task.output) {
                            let merge = operator_run(
                                runs.provenance,
                                KernelSpec::AttentionMerge {
                                    value_dimension: task.value_dimension,
                                    padded_value_dimension: runs.padded_value_dimension,
                                    key_block_columns: runs.padded_key_columns,
                                    initial,
                                    final_block,
                                },
                                seq![seq![block], seq![weights]],
                                output,
                                runs.requirements,
                            );
                            assert(resides(s.shards, block.shard, task.tile));
                            lemma_binary_resides(a.shards, merge, block, weights, task.tile);
                            lemma_append_kernel(a, task.tile, merge);
                        }
                    }
                }
            }
        }
    }
}

/// What the tasks of one block attend to is on their tiles.
proof fn lemma_block_sources_reside(
    shards: Seq<ShardModel>,
    keys: Seq<LowShardId>,
    values: Seq<LowShardId>,
    tasks: Seq<AttentionTask>,
    block_start: u32,
    k: int,
    transfers: TransfersModel,
    done: Seq<TaskSources>,
)
    requires
        0 <= k <= tasks.len(),
        tasks_reside(shards, tasks),
        sources_reside(shards, tasks, done, k),
    ensures
        match block_sources_from(
            shards,
            keys,
            values,
            tasks,
            block_start,
            k,
            transfers,
            done,
        ) {
            Ok((_, sources)) => sources_reside(shards, tasks, sources, tasks.len() as int),
            Err(_) => true,
        },
    decreases tasks.len() - k,
{
    if k < tasks.len() {
        if let Ok(key) = block_source_from(shards, keys, tasks[k].head, block_start, 0) {
            if let Ok(value) = block_source_from(shards, values, tasks[k].head, block_start, 0) {
                if let Ok((more, key_operand)) = resident_block(
                    shards,
                    key,
                    tasks[k].key_staging,
                    tasks[k].tile,
                    transfers,
                ) {
                    if let Ok((most, value_operand)) = resident_block(
                        shards,
                        value,
                        tasks[k].value_staging,
                        tasks[k].tile,
                        more,
                    ) {
                        let next = done.push(
                            (
                                key_operand,
                                value_operand,
                                valid_keys(shards[key.0 as int], block_start),
                            ),
                        );
                        assert(sources_reside(shards, tasks, next, k + 1)) by {
                            reveal(tasks_reside);
                            reveal(sources_reside);
                            assert(task_resides(shards, tasks[k]));
                        }
                        lemma_block_sources_reside(
                            shards,
                            keys,
                            values,
                            tasks,
                            block_start,
                            k + 1,
                            most,
                            next,
                        );
                    }
                }
            }
        }
    }
}

pub proof fn lemma_block_operands<M: Target>(
    target: &M,
    s: StateModel,
    keys: Seq<LowShardId>,
    values: Seq<LowShardId>,
    tasks: Seq<AttentionTask>,
    prepared: Option<AttentionBlockModel>,
    block_start: u32,
    provenance: WorkProvenance,
)
    requires
        tasks_reside(s.shards, tasks),
        prepared matches Some(block) ==> panels_reside(s.shards, block.key_panels)
            && panels_reside(s.shards, block.value_panels),
    ensures
        match block_operands(target, s, keys, values, tasks, prepared, block_start, provenance) {
            Ok((t, sources)) => {
                &&& follows(s, t)
                &&& sources_reside(t.shards, tasks, sources, tasks.len() as int)
            },
            Err(_) => true,
        },
{
    broadcast use group_attention;

    match prepared {
        Some(block) => {
            lemma_broadcast_panels_from(target, s, block.key_panels, 0, 0, Seq::empty());
            if let Ok((a, some)) = broadcast_panels_from(
                target,
                s,
                block.key_panels,
                0,
                0,
                Seq::empty(),
            ) {
                lemma_broadcast_panels_from(target, a, block.value_panels, 0, 0, some);
                if let Ok((b, transfers)) = broadcast_panels_from(
                    target,
                    a,
                    block.value_panels,
                    0,
                    0,
                    some,
                ) {
                    lemma_append_ordered_phase(b, transfers, provenance, ExchangeOrder::Semantic);
                    if let Ok((t, sources)) = block_operands(
                        target,
                        s,
                        keys,
                        values,
                        tasks,
                        prepared,
                        block_start,
                        provenance,
                    ) {
                        assert(tasks_reside(t.shards, tasks));
                        reveal(tasks_reside);
                        reveal(sources_reside);
                    }
                }
            }
        },
        None => {
            if let Ok((transfers, sources)) = block_sources_from(
                s.shards,
                keys,
                values,
                tasks,
                block_start,
                0,
                Seq::empty(),
                Seq::empty(),
            ) {
                assert(sources_reside(s.shards, tasks, Seq::empty(), 0)) by {
                    reveal(sources_reside);
                }
                lemma_block_sources_reside(
                    s.shards,
                    keys,
                    values,
                    tasks,
                    block_start,
                    0,
                    Seq::empty(),
                    Seq::empty(),
                );
                lemma_append_ordered_phase(s, transfers, provenance, ExchangeOrder::Semantic);
            }
        },
    }
}

pub proof fn lemma_attend_from(
    s: StateModel,
    runs: AttentionRunsModel,
    tasks: Seq<AttentionTask>,
    sources: Seq<TaskSources>,
    initial: bool,
    final_block: bool,
    k: int,
)
    requires
        0 <= k,
        tasks_reside(s.shards, tasks),
        sources_reside(s.shards, tasks, sources, tasks.len() as int),
    ensures
        match attend_from(s, runs, tasks, sources, initial, final_block, k) {
            Ok(t) => follows(s, t),
            Err(_) => true,
        },
    decreases tasks.len() - k,
{
    broadcast use group_attention;

    assert(k < tasks.len() ==> task_resides(s.shards, tasks[k]) && resides(
        s.shards,
        sources[k].0,
        tasks[k].tile,
    ) && resides(s.shards, sources[k].1, tasks[k].tile)) by {
        reveal(tasks_reside);
        reveal(sources_reside);
    }
    if k >= tasks.len() {
    } else {
        lemma_append_scores(s, runs, tasks[k], sources[k].0, sources[k].2);
        if let Ok(a) = append_scores(s, runs, tasks[k], sources[k].0, sources[k].2) {
            lemma_append_weighted_values(a, runs, tasks[k], sources[k].1, initial, final_block);
            if let Ok(b) = append_weighted_values(
                a,
                runs,
                tasks[k],
                sources[k].1,
                initial,
                final_block,
            ) {
                lemma_attend_from(b, runs, tasks, sources, initial, final_block, k + 1);
            }
        }
    }
}

pub proof fn lemma_blocks_from<M: Target>(
    target: &M,
    s: StateModel,
    runs: AttentionRunsModel,
    exchange: WorkProvenance,
    keys: Seq<LowShardId>,
    values: Seq<LowShardId>,
    tasks: Seq<AttentionTask>,
    prepared: Option<Seq<AttentionBlockModel>>,
    block: int,
    blocks: int,
)
    requires
        tasks_reside(s.shards, tasks),
        0 <= block,
        prepared matches Some(all) ==> blocks_reside(s.shards, all) && all.len() >= blocks,
    ensures
        match blocks_from(target, s, runs, exchange, keys, values, tasks, prepared, block, blocks) {
            Ok(t) => follows(s, t),
            Err(_) => true,
        },
    decreases blocks - block,
{
    broadcast use group_attention;

    if block >= blocks {
    } else {
        let panels = match prepared { Some(all) => Some(all[block]), None => None};
        assert(panels matches Some(one) ==> panels_reside(s.shards, one.key_panels)
            && panels_reside(s.shards, one.value_panels)) by {
            reveal(blocks_reside);
        }
        lemma_block_operands(
            target,
            s,
            keys,
            values,
            tasks,
            panels,
            (block * AMP_INNER_BLOCK) as u32,
            exchange,
        );
        if let Ok((a, sources)) = block_operands(
            target,
            s,
            keys,
            values,
            tasks,
            panels,
            (block * AMP_INNER_BLOCK) as u32,
            exchange,
        ) {
            lemma_attend_from(a, runs, tasks, sources, block == 0, block + 1 == blocks, 0);
            if let Ok(b) = attend_from(
                a,
                runs,
                tasks,
                sources,
                block == 0,
                block + 1 == blocks,
                0,
            ) {
                lemma_blocks_from(
                    target,
                    b,
                    runs,
                    exchange,
                    keys,
                    values,
                    tasks,
                    prepared,
                    block + 1,
                    blocks,
                );
            }
        }
    }
}

pub proof fn lemma_prepare_operands<M: Target>(
    target: &M,
    s: StateModel,
    operation: MidOperation,
    tasks: Seq<AttentionTask>,
    sizes: AttentionSizes,
    key_rows: u32,
)
    requires
        tasks_reside(s.shards, tasks),
    ensures
        match prepare_operands(target, s, operation, tasks, sizes, key_rows) {
            Ok((t, prepared)) => {
                &&& follows(s, t)
                &&& prepared matches Some(all) ==> blocks_reside(t.shards, all) && all.len()
                    >= div_ceil(key_rows as int, AMP_INNER_BLOCK as int)
            },
            Err(_) => true,
        },
{
    broadcast use group_attention;

    let exchange = attention_provenance(operation).0;
    lemma_materialize_queries(target, s, operation.inputs@[0], tasks, exchange);
    if let Ok(a) = materialize_queries(target, s, operation.inputs@[0], tasks, exchange) {
        if deferred_root(a, operation.inputs@[1]) is Some {
            lemma_prepare_attention_blocks(
                target,
                a,
                block_plan(operation, tasks, sizes, key_rows),
                tasks,
                exchange,
            );
        }
    }
}

pub proof fn lemma_lower_blocked_attention<M: Target>(
    target: &M,
    s: StateModel,
    operation: MidOperation,
    query_key: KernelModel,
    probability_value: KernelModel,
    sizes: AttentionSizes,
    requirements: OperatorRequirementsModel,
)
    ensures
        match lower_blocked_attention(
            target,
            s,
            operation,
            query_key,
            probability_value,
            sizes,
            requirements,
        ) {
            Ok(t) => follows(s, t),
            Err(_) => true,
        },
{
    broadcast use group_attention;

    if operation.inputs@.len() != 3 {
    } else if operation.results@.len() != 1 {
    } else if sizes.key_columns != AMP_INNER_BLOCK || sizes.query_block_rows == 0 {
    } else if let Ok(keys) = value_shards(s, operation.inputs@[1]) {
        if let Ok(values) = value_shards(s, operation.inputs@[2]) {
            if keys.len() != values.len()
                || (
                    deferred_root(s, operation.inputs@[1]) is Some
                ) != (deferred_root(s, operation.inputs@[2]) is Some) {
                } else {
                lemma_build_attention_tasks(
                    target,
                    s,
                    operation.inputs@[0],
                    operation.results@[0],
                    blocked_shape(sizes),
                );
                if let Ok((a, tasks)) = build_attention_tasks(
                    target,
                    s,
                    operation.inputs@[0],
                    operation.results@[0],
                    blocked_shape(sizes),
                ) {
                    if let Ok(key_rows) = tensor_rows(a.shards, keys[0]) {
                        if key_rows == 0 {
                        } else {
                            lemma_prepare_operands(target, a, operation, tasks, sizes, key_rows);
                            if let Ok((b, prepared)) = prepare_operands(
                                target,
                                a,
                                operation,
                                tasks,
                                sizes,
                                key_rows,
                            ) {
                                lemma_blocks_from(
                                    target,
                                    b,
                                    AttentionRuns {
                                        provenance: attention_provenance(operation).1,
                                        query_key,
                                        probability_value,
                                        requirements,
                                        padded_value_dimension: sizes.padded_value_dimension,
                                        padded_key_columns: sizes.key_columns,
                                    },
                                    attention_provenance(operation).0,
                                    keys,
                                    values,
                                    tasks,
                                    prepared,
                                    0,
                                    div_ceil(key_rows as int, AMP_INNER_BLOCK as int),
                                );
                            }
                        }
                    }
                }
            }
        }
    }
}

pub proof fn lemma_stage_task_from<M: Target>(
    target: &M,
    s: StateModel,
    sources: Seq<LowShardId>,
    task: AttentionTask,
    operand: AttentionOperand,
    k: int,
    transfers: TransfersModel,
)
    requires
        task_resides(s.shards, task),
    ensures
        match stage_task_from(target, s, sources, task, operand, k, transfers) {
            Ok((t, _)) => follows(s, t),
            Err(_) => true,
        },
    decreases sources.len() - k,
{
    broadcast use group_attention;

    if k >= sources.len() {
    } else if let Ok(from) = shard_of(s.shards, sources[k]) {
        if from.extents.len() == 0 {
        } else if from.extents[0].start != task.head {
            lemma_stage_task_from(target, s, sources, task, operand, k + 1, transfers);
        } else if from.extents.len() < 2 {
        } else if let Ok(destination) = narrow_view(
            s.shards,
            staging_of(task, operand),
            seq![(0usize, from.extents[1].start, from.extents[1].physical_end)],
        ) {
            let source = ViewModel { shard: sources[k], extents: from.extents };
            if from.tile == task.tile {
                if let Ok(copies) = view_copies(
                    target,
                    s.shards,
                    source,
                    destination,
                    ExchangeOrder::Physical,
                ) {
                    lemma_no_copies_reside(s.shards);
                    lemma_view_copies_reside(
                        target,
                        s.shards,
                        source,
                        destination,
                        task.tile,
                        ExchangeOrder::Physical,
                        Seq::empty(),
                    );
                    lemma_append_copies_from(s, on_tile(copies, task.tile), 0);
                    if let Ok(next) = append_copies_from(s, on_tile(copies, task.tile), 0) {
                        lemma_stage_task_from(
                            target,
                            next,
                            sources,
                            task,
                            operand,
                            k + 1,
                            transfers,
                        );
                    }
                }
            } else {
                lemma_stage_task_from(
                    target,
                    s,
                    sources,
                    task,
                    operand,
                    k + 1,
                    add_transfer(transfers, source, destination),
                );
            }
        }
    }
}

pub proof fn lemma_stage_tasks_from<M: Target>(
    target: &M,
    s: StateModel,
    sources: Seq<LowShardId>,
    tasks: Seq<AttentionTask>,
    operand: AttentionOperand,
    t: int,
    transfers: TransfersModel,
)
    requires
        0 <= t,
        tasks_reside(s.shards, tasks),
    ensures
        match stage_tasks_from(target, s, sources, tasks, operand, t, transfers) {
            Ok((t, _)) => follows(s, t),
            Err(_) => true,
        },
    decreases tasks.len() - t,
{
    broadcast use group_attention;

    if t >= tasks.len() {
    } else {
        assert(task_resides(s.shards, tasks[t])) by {
            reveal(tasks_reside);
        }
        lemma_stage_task_from(target, s, sources, tasks[t], operand, 0, transfers);
        if let Ok((next, more)) = stage_task_from(
            target,
            s,
            sources,
            tasks[t],
            operand,
            0,
            transfers,
        ) {
            lemma_stage_tasks_from(target, next, sources, tasks, operand, t + 1, more);
        }
    }
}

pub proof fn lemma_stage_blocks_from<M: Target>(
    target: &M,
    s: StateModel,
    blocks: Seq<AttentionBlockModel>,
    operand: AttentionOperand,
    k: int,
    transfers: TransfersModel,
)
    requires
        0 <= k,
        blocks_reside(s.shards, blocks),
    ensures
        match stage_blocks_from(target, s, blocks, operand, k, transfers) {
            Ok((t, _)) => follows(s, t),
            Err(_) => true,
        },
    decreases blocks.len() - k,
{
    broadcast use group_attention;

    if k >= blocks.len() {
    } else {
        assert(panels_reside(s.shards, blocks[k].key_panels) && panels_reside(
            s.shards,
            blocks[k].value_panels,
        )) by {
            reveal(blocks_reside);
        }
        lemma_broadcast_panels_from(
            target,
            s,
            match operand {
                AttentionOperand::Key => blocks[k].key_panels,
                AttentionOperand::Value => blocks[k].value_panels,
            },
            blocks[k].row_start,
            0,
            transfers,
        );
        if let Ok((next, more)) = broadcast_panels_from(
            target,
            s,
            match operand {
                AttentionOperand::Key => blocks[k].key_panels,
                AttentionOperand::Value => blocks[k].value_panels,
            },
            blocks[k].row_start,
            0,
            transfers,
        ) {
            lemma_stage_blocks_from(target, next, blocks, operand, k + 1, more);
        }
    }
}

pub proof fn lemma_append_operand<M: Target>(
    target: &M,
    s: StateModel,
    operand: AttentionOperand,
    sources: Seq<LowShardId>,
    prepared: Option<Seq<AttentionBlockModel>>,
    tasks: Seq<AttentionTask>,
    provenance: WorkProvenance,
)
    requires
        tasks_reside(s.shards, tasks),
        prepared matches Some(all) ==> blocks_reside(s.shards, all),
    ensures
        match append_operand(target, s, operand, sources, prepared, tasks, provenance) {
            Ok(t) => follows(s, t),
            Err(_) => true,
        },
{
    broadcast use group_attention;

    match prepared {
        None => {
            lemma_stage_tasks_from(target, s, sources, tasks, operand, 0, Seq::empty());
        },
        Some(blocks) => {
            lemma_stage_blocks_from(target, s, blocks, operand, 0, Seq::empty());
        },
    }
    if let Ok((next, transfers)) = (
        match prepared {
            None => stage_tasks_from(target, s, sources, tasks, operand, 0, Seq::empty()),
            Some(blocks) => stage_blocks_from(target, s, blocks, operand, 0, Seq::empty()),
        }
    ) {
        lemma_append_ordered_phase(next, transfers, provenance, ExchangeOrder::Physical);
    }
}

pub proof fn lemma_append_all_scores_from(
    s: StateModel,
    runs: AttentionRunsModel,
    tasks: Seq<AttentionTask>,
    key_rows: u32,
    k: int,
)
    requires
        0 <= k,
        tasks_reside(s.shards, tasks),
    ensures
        match append_all_scores_from(s, runs, tasks, key_rows, k) {
            Ok(t) => follows(s, t),
            Err(_) => true,
        },
    decreases tasks.len() - k,
{
    broadcast use group_attention;

    assert(k < tasks.len() ==> task_resides(s.shards, tasks[k])) by {
        reveal(tasks_reside);
    }
    if k >= tasks.len() {
    } else {
        lemma_append_scores(s, runs, tasks[k], tasks[k].key_staging, key_rows);
        if let Ok(next) = append_scores(s, runs, tasks[k], tasks[k].key_staging, key_rows) {
            lemma_append_all_scores_from(next, runs, tasks, key_rows, k + 1);
        }
    }
}

pub proof fn lemma_append_all_values_from(
    s: StateModel,
    runs: AttentionRunsModel,
    tasks: Seq<AttentionTask>,
    k: int,
)
    requires
        0 <= k,
        tasks_reside(s.shards, tasks),
    ensures
        match append_all_values_from(s, runs, tasks, k) {
            Ok(t) => follows(s, t),
            Err(_) => true,
        },
    decreases tasks.len() - k,
{
    broadcast use group_attention;

    assert(k < tasks.len() ==> task_resides(s.shards, tasks[k])) by {
        reveal(tasks_reside);
    }
    if k >= tasks.len() {
    } else {
        lemma_append_weighted_values(s, runs, tasks[k], tasks[k].value_staging, true, true);
        if let Ok(next) = append_weighted_values(
            s,
            runs,
            tasks[k],
            tasks[k].value_staging,
            true,
            true,
        ) {
            lemma_append_all_values_from(next, runs, tasks, k + 1);
        }
    }
}

pub proof fn lemma_attend_whole<M: Target>(
    target: &M,
    s: StateModel,
    runs: AttentionRunsModel,
    exchange: WorkProvenance,
    keys: Seq<LowShardId>,
    values: Seq<LowShardId>,
    tasks: Seq<AttentionTask>,
    prepared: Option<Seq<AttentionBlockModel>>,
    key_rows: u32,
)
    requires
        tasks_reside(s.shards, tasks),
        prepared matches Some(all) ==> blocks_reside(s.shards, all),
    ensures
        match attend_whole(target, s, runs, exchange, keys, values, tasks, prepared, key_rows) {
            Ok(t) => follows(s, t),
            Err(_) => true,
        },
{
    broadcast use group_attention;

    lemma_append_operand(target, s, AttentionOperand::Key, keys, prepared, tasks, exchange);
    if let Ok(a) = append_operand(
        target,
        s,
        AttentionOperand::Key,
        keys,
        prepared,
        tasks,
        exchange,
    ) {
        lemma_append_all_scores_from(a, runs, tasks, key_rows, 0);
        if let Ok(b) = append_all_scores_from(a, runs, tasks, key_rows, 0) {
            lemma_append_operand(
                target,
                b,
                AttentionOperand::Value,
                values,
                prepared,
                tasks,
                exchange,
            );
            if let Ok(c) = append_operand(
                target,
                b,
                AttentionOperand::Value,
                values,
                prepared,
                tasks,
                exchange,
            ) {
                lemma_append_all_values_from(c, runs, tasks, 0);
            }
        }
    }
}

pub proof fn lemma_lower_materialized_attention<M: Target>(
    target: &M,
    s: StateModel,
    operation: MidOperation,
    query_key: KernelModel,
    probability_value: KernelModel,
    sizes: AttentionSizes,
    requirements: OperatorRequirementsModel,
)
    ensures
        match lower_materialized_attention(
            target,
            s,
            operation,
            query_key,
            probability_value,
            sizes,
            requirements,
        ) {
            Ok(t) => follows(s, t),
            Err(_) => true,
        },
{
    broadcast use group_attention;

    if operation.inputs@.len() != 3 {
    } else if operation.results@.len() != 1 {
    } else if sizes.query_block_rows == 0 || sizes.key_columns == 0 || sizes.key_columns % AMP_INNER_BLOCK != 0 || (
        deferred_root(s, operation.inputs@[1]) is Some
    ) != (deferred_root(s, operation.inputs@[2]) is Some) {
    } else if let Ok(keys) = value_shards(s, operation.inputs@[1]) {
        if let Ok(values) = value_shards(s, operation.inputs@[2]) {
            if keys.len() != values.len() {
            } else if let Ok(key_rows) = tensor_rows(s.shards, keys[0]) {
                if key_rows == 0 || key_rows > sizes.key_columns {
                } else {
                    lemma_build_attention_tasks(
                        target,
                        s,
                        operation.inputs@[0],
                        operation.results@[0],
                        whole_shape(sizes, key_rows),
                    );
                    if let Ok((a, tasks)) = build_attention_tasks(
                        target,
                        s,
                        operation.inputs@[0],
                        operation.results@[0],
                        whole_shape(sizes, key_rows),
                    ) {
                        lemma_prepare_operands(target, a, operation, tasks, sizes, key_rows);
                        if let Ok((b, prepared)) = prepare_operands(
                            target,
                            a,
                            operation,
                            tasks,
                            sizes,
                            key_rows,
                        ) {
                            lemma_attend_whole(
                                target,
                                b,
                                AttentionRuns {
                                    provenance: attention_provenance(operation).1,
                                    query_key,
                                    probability_value,
                                    requirements,
                                    padded_value_dimension: sizes.padded_value_dimension,
                                    padded_key_columns: sizes.key_columns,
                                },
                                attention_provenance(operation).0,
                                keys,
                                values,
                                tasks,
                                prepared,
                                key_rows,
                            );
                        }
                    }
                }
            }
        }
    }
}

} // verus!
