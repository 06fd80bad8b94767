//! Moving data and pointwise work keep a schedule sound.

use crate::block_regions::AxisFactorView;
use crate::buffers::{
    append_fill_zero, append_attention_rearrange, fill_zero_run, push_attention_buffer,
    push_attention_scratch, rearrange_run, scratch_matrix,
};
use crate::conversion::{
    BatchModel, Placement, append_batch, can_unpack_from, conversion_run, conversion_staging,
    convert_locally_from, copy_order, empty_batch, filed_mappings, lower_conversion,
    gather_intersections, lower_local_conversion, lower_mapped_views, move_from,
    packing_run, placement, populate, populate_from, provenance_of, retiling_from,
    row_major_staging, trimmed, unpack_amp, unpack_from,
};
use crate::deferred::{Movement, micro_panels, place_from};
use crate::fallback::{
    cast_from, cast_run, cast_staging, converted_formats, default_strategy, gather_and_cast,
    lower_unplanned_conversion, needs_cast, push_cast_staging_from, staged_beside, stands_beside,
};
use crate::heads::{
    is_product_order, lower_split_heads, result_provenance, split_head_mappings_from,
    split_heads_between, split_heads_logically, split_heads_unpacked,
};
use crate::kernels::{
    append_kernel, append_kernels_from, is_batched_product, matrix_operands_from, matrix_run,
    matrix_runs_along, matrix_runs_below, matrix_view, matrix_views_from,
};
use crate::lookup::{first_on, local_shard, resides, value_shards};
use crate::low::{
    ExchangeOrder, LocalCopy, LowShardId, RunModel, ShardModel, ViewModel, WorkProvenance,
    WorkReason,
};
use crate::mid::{
    ConversionPlan, ConversionStrategy, KernelModel, MidOperation, MidOperator, MidValueId,
    OperatorRequirementsModel, PointwiseInputMapping,
};
use crate::order::GroupModel;
use crate::phase::{add_transfer, append_mixed_phase, append_ordered_phase, exchanges};
use crate::pointwise::{
    is_empty, lower_pointwise, operator_run, pointwise_from, pointwise_sources_from, receive_from,
    receiving_shard,
};
use crate::schedule::{
    copies_reside, copy_resides, follows, group_follows, lemma_append_exchange_phase,
    lemma_no_copies_reside, lemma_append_local_copy,
    lemma_append_single_kernel, lemma_no_operands_reside, lemma_no_runs_reside,
    lemma_operand_resides, lemma_push_shard, lemma_pushed_run_resides, lemma_run_resides,
    lemma_unary_resides, operands_reside, run_resides, runs_reside, views_reside,
};
use crate::state::{
    StateModel, TransfersModel, append_copies_from, append_local_copy, append_single_kernel,
    append_single_kernels_from, full_view, push_shard, shard_of, unpadded,
};
use crate::target::Target;
use crate::tensor::{ElementOrder, MemoryClass, Precision};
use crate::views::{lower_view, view_logically, view_mappings, view_unpacked};
use crate::copies::{lemma_view_copies_between, on_tile, view_copies, with_view_copies};
use vstd::prelude::*;

verus! {

pub proof fn lemma_append_copies_from(s: StateModel, copies: Seq<(u16, LocalCopy)>, i: int)
    requires
        0 <= i,
        copies_reside(s.shards, copies),
    ensures
        match append_copies_from(s, copies, i) {
            Ok(t) => follows(s, t),
            Err(_) => true,
        },
    decreases copies.len() - i,
{
    broadcast use group_follows;

    if i >= copies.len() {
    } else {
        assert(copy_resides(s.shards, copies[i].1, copies[i].0)) by {
            reveal(copies_reside);
        }
        lemma_append_local_copy(s, copies[i].0, copies[i].1);
        match append_local_copy(s, copies[i].0, copies[i].1) {
            Ok(next) => {
                lemma_append_copies_from(next, copies, i + 1);
            },
            Err(_) => {},
        }
    }
}

/// Copies of one view to another are on a tile where both views are.
pub proof fn lemma_view_copies_reside<M: Target>(
    target: &M,
    shards: Seq<ShardModel>,
    source: ViewModel,
    destination: ViewModel,
    tile: u16,
    order: ExchangeOrder,
    done: Seq<(u16, LocalCopy)>,
)
    requires
        copies_reside(shards, done),
        resides(shards, source.shard, tile),
        resides(shards, destination.shard, tile),
    ensures
        match with_view_copies(target, shards, source, destination, tile, order, done) {
            Ok(copies) => copies_reside(shards, copies),
            Err(_) => true,
        },
        match view_copies(target, shards, source, destination, order) {
            Ok(copies) => copies_reside(shards, on_tile(copies, tile)),
            Err(_) => true,
        },
{
    lemma_view_copies_between(target, shards, source, destination, order);
    reveal(copies_reside);
    if let Ok(copies) = view_copies(target, shards, source, destination, order) {
        let more = on_tile(copies, tile);
        assert forall|i: int| 0 <= i < more.len() implies copy_resides(
            shards,
            (#[trigger] more[i]).1,
            more[i].0,
        ) by {
            assert(copies[i].source == source.shard);
        }
        let all = done + more;
        assert forall|i: int| 0 <= i < all.len() implies copy_resides(
            shards,
            (#[trigger] all[i]).1,
            all[i].0,
        ) by {
            if i < done.len() {
                assert(all[i] == done[i]);
            } else {
                assert(all[i] == more[i - done.len()]);
            }
        }
    }
}

/// All mappings go into one shard.
pub open spec fn all_into(mappings: Seq<(ViewModel, ViewModel)>, destination: LowShardId) -> bool {
    forall|i: int| 0 <= i < mappings.len() ==> (#[trigger] mappings[i]).1.shard == destination
}

/// Placing adds copies only where both shards are on the tile.
pub proof fn lemma_place_resides<M: Target>(
    target: &M,
    shards: Seq<ShardModel>,
    mappings: Seq<(ViewModel, ViewModel)>,
    destination: LowShardId,
    tile: u16,
    order: ExchangeOrder,
    k: int,
    done: Movement,
)
    requires
        0 <= k,
        all_into(mappings, destination),
        resides(shards, destination, tile),
        copies_reside(shards, done.1),
    ensures
        match place_from(target, shards, mappings, tile, order, k, done) {
            Ok(more) => copies_reside(shards, more.1),
            Err(_) => true,
        },
    decreases mappings.len() - k,
{
    if k < mappings.len() {
        assert(mappings[k].1.shard == destination);
        if resides(shards, mappings[k].0.shard, tile) {
            lemma_view_copies_reside(
                target,
                shards,
                mappings[k].0,
                mappings[k].1,
                tile,
                order,
                done.1,
            );
            if let Ok(copies) = with_view_copies(
                target,
                shards,
                mappings[k].0,
                mappings[k].1,
                tile,
                order,
                done.1,
            ) {
                lemma_place_resides(
                    target,
                    shards,
                    mappings,
                    destination,
                    tile,
                    order,
                    k + 1,
                    (done.0, copies),
                );
            }
        } else {
            lemma_place_resides(
                target,
                shards,
                mappings,
                destination,
                tile,
                order,
                k + 1,
                (add_transfer(done.0, mappings[k].0, mappings[k].1), done.1),
            );
        }
    }
}

pub proof fn lemma_append_single_kernels_from(s: StateModel, tile: u16, runs: Seq<RunModel>, i: int)
    requires
        0 <= i,
        forall|k: int| 0 <= k < runs.len() ==> run_resides(s.shards, #[trigger] runs[k], tile),
    ensures
        match append_single_kernels_from(s, tile, runs, i) {
            Ok(t) => follows(s, t),
            Err(_) => true,
        },
    decreases runs.len() - i,
{
    broadcast use group_follows;

    if i >= runs.len() {
    } else {
        lemma_append_single_kernel(s, tile, runs[i]);
        match append_single_kernel(s, tile, runs[i]) {
            Ok(next) => {
                assert forall|k: int| 0 <= k < runs.len() implies run_resides(
                    next.shards,
                    #[trigger] runs[k],
                    tile,
                ) by {
                    assert(run_resides(s.shards, runs[k], tile));
                }
                lemma_append_single_kernels_from(next, tile, runs, i + 1);
            },
            Err(_) => {},
        }
    }
}

pub proof fn lemma_append_ordered_phase(
    s: StateModel,
    transfers: TransfersModel,
    provenance: WorkProvenance,
    order: ExchangeOrder,
)
    ensures
        match append_ordered_phase(s, transfers, provenance, order) {
            Ok(t) => follows(s, t),
            Err(_) => true,
        },
{
    broadcast use group_follows;

    lemma_append_exchange_phase(s, exchanges(transfers, order), provenance);
}

pub proof fn lemma_append_mixed_phase(
    s: StateModel,
    semantic: TransfersModel,
    physical: TransfersModel,
    provenance: WorkProvenance,
)
    ensures
        match append_mixed_phase(s, semantic, physical, provenance) {
            Ok(t) => follows(s, t),
            Err(_) => true,
        },
{
    broadcast use group_follows;

    lemma_append_exchange_phase(
        s,
        exchanges(semantic, ExchangeOrder::Semantic) + exchanges(physical, ExchangeOrder::Physical),
        provenance,
    );
}

/// The views of one matrix are of the same shards.
proof fn lemma_matrix_views_reside(
    shards: Seq<ShardModel>,
    views: Seq<ViewModel>,
    output_shape: Seq<u32>,
    coordinates: Seq<u32>,
    done: Seq<ViewModel>,
    i: int,
    tile: u16,
)
    requires
        0 <= i,
        views_reside(shards, views, tile),
        views_reside(shards, done, tile),
    ensures
        match matrix_views_from(shards, views, output_shape, coordinates, done, i) {
            Ok(r) => views_reside(shards, r, tile),
            Err(_) => true,
        },
    decreases views.len() - i,
{
    if i < views.len() {
        if let Ok(view) = matrix_view(shards, views[i], output_shape, coordinates) {
            assert(view.shard == views[i].shard);
            lemma_matrix_views_reside(
                shards,
                views,
                output_shape,
                coordinates,
                done.push(view),
                i + 1,
                tile,
            );
        }
    }
}

/// The operands of one matrix are of the same shards.
proof fn lemma_matrix_operands_reside(
    shards: Seq<ShardModel>,
    operands: Seq<Seq<ViewModel>>,
    output_shape: Seq<u32>,
    coordinates: Seq<u32>,
    done: Seq<Seq<ViewModel>>,
    i: int,
    tile: u16,
)
    requires
        0 <= i,
        operands_reside(shards, operands, tile),
        operands_reside(shards, done, tile),
    ensures
        match matrix_operands_from(shards, operands, output_shape, coordinates, done, i) {
            Ok(r) => operands_reside(shards, r, tile),
            Err(_) => true,
        },
    decreases operands.len() - i,
{
    if i < operands.len() {
        assert(views_reside(shards, operands[i], tile)) by {
            reveal(operands_reside);
        }
        lemma_matrix_views_reside(
            shards,
            operands[i],
            output_shape,
            coordinates,
            Seq::empty(),
            0,
            tile,
        );
        if let Ok(views) = matrix_views_from(
            shards,
            operands[i],
            output_shape,
            coordinates,
            Seq::empty(),
            0,
        ) {
            assert(operands_reside(shards, done.push(views), tile)) by {
                reveal(operands_reside);
            }
            lemma_matrix_operands_reside(
                shards,
                operands,
                output_shape,
                coordinates,
                done.push(views),
                i + 1,
                tile,
            );
        }
    }
}

/// All runs of a list are on one tile.
pub open spec fn all_reside(shards: Seq<ShardModel>, runs: Seq<RunModel>, tile: u16) -> bool {
    forall|k: int| 0 <= k < runs.len() ==> run_resides(shards, #[trigger] runs[k], tile)
}

/// The runs of the matrices of a batch are where the run of the batch is.
proof fn lemma_matrix_runs_reside(
    shards: Seq<ShardModel>,
    run: RunModel,
    axes: nat,
    coordinates: Seq<u32>,
    done: Seq<RunModel>,
    tile: u16,
)
    requires
        run_resides(shards, run, tile),
        all_reside(shards, done, tile),
    ensures
        match matrix_runs_below(shards, run, axes, coordinates, done) {
            Ok(r) => all_reside(shards, r, tile),
            Err(_) => true,
        },
    decreases axes - coordinates.len(), 1int, 0int,
{
    if coordinates.len() >= axes {
        if let Ok(matrix) = matrix_run(shards, run, coordinates) {
            assert(run_resides(shards, matrix, tile)) by {
                reveal(run_resides);
                lemma_no_operands_reside(shards, tile);
                lemma_matrix_operands_reside(
                    shards,
                    run.inputs,
                    shards[run.output.shard.0 as int].tensor_type.shape,
                    coordinates,
                    Seq::empty(),
                    0,
                    tile,
                );
            }
        }
    } else {
        let extent = run.output.extents[coordinates.len() as int];
        lemma_matrix_runs_along_reside(
            shards,
            run,
            axes,
            coordinates,
            extent.start as int,
            extent.physical_end as int,
            done,
            tile,
        );
    }
}

proof fn lemma_matrix_runs_along_reside(
    shards: Seq<ShardModel>,
    run: RunModel,
    axes: nat,
    coordinates: Seq<u32>,
    coordinate: int,
    end: int,
    done: Seq<RunModel>,
    tile: u16,
)
    requires
        run_resides(shards, run, tile),
        all_reside(shards, done, tile),
    ensures
        match matrix_runs_along(shards, run, axes, coordinates, coordinate, end, done) {
            Ok(r) => all_reside(shards, r, tile),
            Err(_) => true,
        },
    decreases axes - coordinates.len(), 0int, end - coordinate,
{
    if coordinate < end && coordinates.len() < axes {
        lemma_matrix_runs_reside(
            shards,
            run,
            axes,
            coordinates.push(coordinate as u32),
            done,
            tile,
        );
        if let Ok(more) = matrix_runs_below(
            shards,
            run,
            axes,
            coordinates.push(coordinate as u32),
            done,
        ) {
            lemma_matrix_runs_along_reside(
                shards,
                run,
                axes,
                coordinates,
                coordinate + 1,
                end,
                more,
                tile,
            );
        }
    }
}

pub proof fn lemma_append_kernel(s: StateModel, tile: u16, run: RunModel)
    requires
        run_resides(s.shards, run, tile),
    ensures
        match append_kernel(s, tile, run) {
            Ok(t) => follows(s, t),
            Err(_) => true,
        },
{
    broadcast use group_follows;

    if is_batched_product(s.shards, run) {
        lemma_matrix_runs_reside(
            s.shards,
            run,
            (run.output.extents.len() - 2) as nat,
            Seq::empty(),
            Seq::empty(),
            tile,
        );
        if let Ok(matrices) = matrix_runs_below(
            s.shards,
            run,
            (run.output.extents.len() - 2) as nat,
            Seq::empty(),
            Seq::empty(),
        ) {
            if matrices.len() > 1 {
                lemma_append_single_kernels_from(s, tile, matrices, 0);
            } else {
                lemma_append_single_kernel(s, tile, run);
            }
        }
    } else {
        lemma_append_single_kernel(s, tile, run);
    }
}

pub proof fn lemma_append_kernels_from(s: StateModel, runs: Seq<(u16, RunModel)>, i: int)
    requires
        0 <= i,
        runs_reside(s.shards, runs),
    ensures
        match append_kernels_from(s, runs, i) {
            Ok(t) => follows(s, t),
            Err(_) => true,
        },
    decreases runs.len() - i,
{
    broadcast use group_follows;

    if i >= runs.len() {
    } else {
        assert(run_resides(s.shards, runs[i].1, runs[i].0)) by {
            reveal(runs_reside);
        }
        lemma_append_kernel(s, runs[i].0, runs[i].1);
        match append_kernel(s, runs[i].0, runs[i].1) {
            Ok(next) => {
                lemma_append_kernels_from(next, runs, i + 1);
            },
            Err(_) => {},
        }
    }
}

pub proof fn lemma_push_attention_scratch(
    s: StateModel,
    tile: u16,
    rows: u32,
    columns: u32,
    precision: Precision,
    order: ElementOrder,
    memory_class: MemoryClass,
)
    ensures
        match push_attention_scratch(s, tile, rows, columns, precision, order, memory_class) {
            Ok((t, id)) => follows(s, t) && resides(t.shards, id, tile),
            Err(_) => true,
        },
{
    broadcast use group_follows;

    lemma_push_shard(
        s,
        scratch_matrix(tile, (rows, rows), (columns, columns), precision, order, memory_class),
    );
}

pub proof fn lemma_push_attention_buffer(
    s: StateModel,
    tile: u16,
    rows: (u32, u32),
    columns: (u32, u32),
    order: ElementOrder,
)
    ensures
        match push_attention_buffer(s, tile, rows, columns, order) {
            Ok((t, id)) => follows(s, t) && resides(t.shards, id, tile),
            Err(_) => true,
        },
{
    broadcast use group_follows;

    lemma_push_shard(
        s,
        scratch_matrix(tile, rows, columns, Precision::F16, order, MemoryClass::Ipu21Standard),
    );
}

pub proof fn lemma_append_fill_zero(s: StateModel, id: LowShardId, provenance: WorkProvenance)
    ensures
        match append_fill_zero(s, id, provenance) {
            Ok(t) => follows(s, t),
            Err(_) => true,
        },
{
    broadcast use group_follows;

    if let Ok(shard) = shard_of(s.shards, id) {
        lemma_no_operands_reside(s.shards, shard.tile);
        lemma_run_resides(s.shards, fill_zero_run(id, shard, provenance), shard.tile);
        lemma_append_kernel(s, shard.tile, fill_zero_run(id, shard, provenance));
    }
}

pub proof fn lemma_append_attention_rearrange(
    s: StateModel,
    tile: u16,
    source: LowShardId,
    destination: LowShardId,
    alignment: u32,
    provenance: WorkProvenance,
)
    requires
        resides(s.shards, source, tile),
        resides(s.shards, destination, tile),
    ensures
        match append_attention_rearrange(s, tile, source, destination, alignment, provenance) {
            Ok(t) => follows(s, t),
            Err(_) => true,
        },
{
    broadcast use group_follows;

    if let Ok(from) = shard_of(s.shards, source) {
        if let Ok(to) = shard_of(s.shards, destination) {
            let run = rearrange_run(source, from, destination, to, alignment, provenance);
            lemma_unary_resides(
                s.shards,
                run,
                ViewModel { shard: source, extents: from.extents },
                tile,
            );
            lemma_append_kernel(s, tile, run);
        }
    }
}

pub proof fn lemma_unpack_from(
    s: StateModel,
    ids: Seq<LowShardId>,
    provenance: WorkProvenance,
    k: int,
    done: Seq<LowShardId>,
)
    ensures
        match unpack_from(s, ids, provenance, k, done) {
            Ok((t, _)) => follows(s, t),
            Err(_) => true,
        },
    decreases ids.len() - k,
{
    broadcast use group_follows;

    if k >= ids.len() {
    } else if let Ok(shard) = shard_of(s.shards, ids[k]) {
        lemma_push_shard(s, row_major_staging(shard));
        if let Ok((pushed, staging)) = push_shard(s, row_major_staging(shard)) {
            assert(resides(s.shards, ids[k], shard.tile));
            lemma_append_attention_rearrange(pushed, shard.tile, ids[k], staging, 4, provenance);
            if let Ok(next) = append_attention_rearrange(pushed, shard.tile, ids[k], staging, 4, provenance) {
                lemma_unpack_from(next, ids, provenance, k + 1, done.push(staging));
            }
        }
    }
}

pub proof fn lemma_unpack_amp(s: StateModel, value: MidValueId, provenance: WorkProvenance)
    ensures
        match unpack_amp(s, value, provenance) {
            Ok((t, _)) => follows(s, t),
            Err(_) => true,
        },
{
    broadcast use group_follows;

    if let Ok(ids) = value_shards(s, value) {
        match can_unpack_from(s.shards, ids, 0) {
            Err(_) => {},
            Ok(false) => {},
            Ok(true) => {
                lemma_unpack_from(s, ids, provenance, 0, Seq::empty());
            },
        }
    }
}

/// The copies of a batch are on the tiles that they are meant for.
pub open spec fn batch_resides(shards: Seq<ShardModel>, batch: BatchModel) -> bool {
    copies_reside(shards, batch.before) && copies_reside(shards, batch.after)
}

/// Moving adds no runs, and copies only where both shards are on one tile.
proof fn lemma_moving_adds_no_runs<M: Target>(
    target: &M,
    shards: Seq<ShardModel>,
    mappings: Seq<(ViewModel, ViewModel)>,
    staging: Option<LowShardId>,
    logical: bool,
    k: int,
    batch: BatchModel,
)
    requires
        batch_resides(shards, batch),
    ensures
        match move_from(target, shards, mappings, staging, logical, k, batch) {
            Ok(more) => more.kernels == batch.kernels && batch_resides(shards, more),
            Err(_) => true,
        },
    decreases mappings.len() - k,
{
    if k < mappings.len() {
        let source = match staging {
            Some(_) => trimmed(mappings[k].0, mappings[k].0.shard),
            None => mappings[k].0,
        };
        let destination = match staging {
            Some(id) => trimmed(mappings[k].1, id),
            None => mappings[k].1,
        };
        lemma_moving_adds_no_runs(
            target,
            shards,
            mappings,
            staging,
            logical,
            k + 1,
            BatchModel {
                transfers: add_transfer(batch.transfers, source, destination),
                ..batch
            },
        );
        let copied = if staging is Some {
            batch.before
        } else {
            batch.after
        };
        if let Ok(to) = shard_of(shards, destination.shard) {
            if !resides(shards, source.shard, to.tile) {
            } else if let Ok(copies) = with_view_copies(
                target,
                shards,
                source,
                destination,
                to.tile,
                copy_order(logical),
                copied,
            ) {
                lemma_view_copies_reside(
                    target,
                    shards,
                    source,
                    destination,
                    to.tile,
                    copy_order(logical),
                    copied,
                );
                lemma_moving_adds_no_runs(
                    target,
                    shards,
                    mappings,
                    staging,
                    logical,
                    k + 1,
                    if staging is Some {
                        BatchModel { before: copies, ..batch }
                    } else {
                        BatchModel { after: copies, ..batch }
                    },
                );
            }
        }
    }
}

pub proof fn lemma_populate<M: Target>(
    target: &M,
    s: StateModel,
    mappings: Seq<(ViewModel, ViewModel)>,
    logical: bool,
    provenance: WorkProvenance,
    batch: BatchModel,
)
    requires
        runs_reside(s.shards, batch.kernels),
        batch_resides(s.shards, batch),
    ensures
        match populate(target, s, mappings, logical, provenance, batch) {
            Ok((t, more)) => follows(s, t) && runs_reside(t.shards, more.kernels)
                && batch_resides(t.shards, more),
            Err(_) => true,
        },
{
    broadcast use group_follows;

    let destination = mappings[0].1.shard;
    match placement(target, s.shards, destination, mappings, logical) {
        Err(_) => {},
        Ok(Placement::Direct) => {
            lemma_moving_adds_no_runs(target, s.shards, mappings, None, logical, 0, batch);
        },
        Ok(Placement::Cleared) => {
            lemma_append_fill_zero(s, destination, provenance);
            if let Ok(next) = append_fill_zero(s, destination, provenance) {
                lemma_moving_adds_no_runs(target, next.shards, mappings, None, logical, 0, batch);
            }
        },
        Ok(Placement::Staged) => {
            let shard = s.shards[destination.0 as int];
            lemma_push_shard(s, conversion_staging(shard));
            if let Ok((next, staging)) = push_shard(s, conversion_staging(shard)) {
                assert(resides(s.shards, destination, shard.tile));
                lemma_moving_adds_no_runs(
                    target,
                    next.shards,
                    mappings,
                    Some(staging),
                    logical,
                    0,
                    batch,
                );
                if let Ok(more) = move_from(
                    target,
                    next.shards,
                    mappings,
                    Some(staging),
                    logical,
                    0,
                    batch,
                ) {
                    let from = next.shards[staging.0 as int];
                    let to = next.shards[destination.0 as int];
                    let run = packing_run(staging, from, destination, to, provenance);
                    lemma_unary_resides(
                        next.shards,
                        run,
                        ViewModel { shard: staging, extents: from.extents },
                        shard.tile,
                    );
                    lemma_pushed_run_resides(next.shards, more.kernels, shard.tile, run);
                    lemma_view_copies_reside(
                        target,
                        next.shards,
                        ViewModel { shard: staging, extents: from.extents },
                        ViewModel { shard: destination, extents: unpadded(to.extents) },
                        to.tile,
                        ExchangeOrder::Semantic,
                        more.after,
                    );
                }
            }
        },
    }
}

pub proof fn lemma_populate_from<M: Target>(
    target: &M,
    s: StateModel,
    groups: Seq<GroupModel<(ViewModel, ViewModel)>>,
    logical: bool,
    provenance: WorkProvenance,
    k: int,
    batch: BatchModel,
)
    requires
        runs_reside(s.shards, batch.kernels),
        batch_resides(s.shards, batch),
    ensures
        match populate_from(target, s, groups, logical, provenance, k, batch) {
            Ok((t, more)) => follows(s, t) && runs_reside(t.shards, more.kernels)
                && batch_resides(t.shards, more),
            Err(_) => true,
        },
    decreases groups.len() - k,
{
    broadcast use group_follows;

    if k >= groups.len() {
    } else {
        lemma_populate(target, s, groups[k].items, logical, provenance, batch);
        if let Ok((next, more)) = populate(target, s, groups[k].items, logical, provenance, batch) {
            lemma_populate_from(target, next, groups, logical, provenance, k + 1, more);
        }
    }
}

pub proof fn lemma_append_batch(
    s: StateModel,
    batch: BatchModel,
    provenance: WorkProvenance,
    order: ExchangeOrder,
)
    requires
        runs_reside(s.shards, batch.kernels),
        batch_resides(s.shards, batch),
    ensures
        match append_batch(s, batch, provenance, order) {
            Ok(t) => follows(s, t),
            Err(_) => true,
        },
{
    broadcast use group_follows;

    lemma_append_copies_from(s, batch.before, 0);
    if let Ok(a) = append_copies_from(s, batch.before, 0) {
        lemma_append_ordered_phase(a, batch.transfers, provenance, order);
        if let Ok(b) = append_ordered_phase(a, batch.transfers, provenance, order) {
            lemma_append_copies_from(b, batch.after, 0);
            if let Ok(c) = append_copies_from(b, batch.after, 0) {
                lemma_append_kernels_from(c, batch.kernels, 0);
            }
        }
    }
}

pub proof fn lemma_lower_mapped_views<M: Target>(
    target: &M,
    s: StateModel,
    mappings: Seq<(ViewModel, ViewModel)>,
    logical: bool,
    order: ExchangeOrder,
    provenance: WorkProvenance,
)
    ensures
        match lower_mapped_views(target, s, mappings, logical, order, provenance) {
            Ok(t) => follows(s, t),
            Err(_) => true,
        },
{
    broadcast use group_follows;

    lemma_no_runs_reside(s.shards);
    lemma_no_copies_reside(s.shards);
    lemma_populate_from(
        target,
        s,
        filed_mappings(mappings, mappings.len() as int),
        logical,
        provenance,
        0,
        empty_batch(),
    );
    if let Ok((next, batch)) = populate_from(
        target,
        s,
        filed_mappings(mappings, mappings.len() as int),
        logical,
        provenance,
        0,
        empty_batch(),
    ) {
        lemma_append_batch(next, batch, provenance, order);
    }
}

/// The shard that is found first on a tile is on it.
pub proof fn lemma_first_resides(
    shards: Seq<ShardModel>,
    ids: Seq<LowShardId>,
    tile: u16,
    i: int,
)
    ensures
        match first_on(shards, ids, tile, i) {
            Some(id) => resides(shards, id, tile),
            None => true,
        },
    decreases ids.len() - i,
{
    if i < ids.len() {
        lemma_first_resides(shards, ids, tile, i + 1);
    }
}

/// The shard of a value that is found on a tile is on it.
pub proof fn lemma_local_shard_resides(s: StateModel, value: MidValueId, tile: u16)
    ensures
        match local_shard(s, value, tile) {
            Ok(id) => resides(s.shards, id, tile),
            Err(_) => true,
        },
{
    if let Ok(ids) = value_shards(s, value) {
        lemma_first_resides(s.shards, ids, tile, 0);
    }
}

pub proof fn lemma_convert_locally_from(
    s: StateModel,
    plan: ConversionPlan,
    input: MidValueId,
    outputs: Seq<LowShardId>,
    provenance: WorkProvenance,
    k: int,
)
    ensures
        match convert_locally_from(s, plan, input, outputs, provenance, k) {
            Ok(t) => follows(s, t),
            Err(_) => true,
        },
    decreases outputs.len() - k,
{
    broadcast use group_follows;

    if k >= outputs.len() {
    } else if let Ok(to) = shard_of(s.shards, outputs[k]) {
        if let Ok(id) = local_shard(s, input, to.tile) {
            if let Ok(from) = full_view(s.shards, id) {
                let output = ViewModel { shard: outputs[k], extents: to.extents };
                let run = conversion_run(plan, from, output, provenance);
                lemma_local_shard_resides(s, input, to.tile);
                lemma_unary_resides(s.shards, run, from, to.tile);
                lemma_append_kernel(s, to.tile, run);
                if let Ok(next) = append_kernel(
                    s,
                    to.tile,
                    conversion_run(
                        plan,
                        from,
                        ViewModel { shard: outputs[k], extents: to.extents },
                        provenance,
                    ),
                ) {
                    lemma_convert_locally_from(next, plan, input, outputs, provenance, k + 1);
                }
            }
        }
    }
}

pub proof fn lemma_lower_local_conversion(
    s: StateModel,
    operation: MidOperation,
    plan: ConversionPlan,
)
    ensures
        match lower_local_conversion(s, operation, plan) {
            Ok(t) => follows(s, t),
            Err(_) => true,
        },
{
    broadcast use group_follows;

    if operation.inputs@.len() != 1 {
    } else if operation.results@.len() != 1 {
    } else if let Ok(outputs) = value_shards(s, operation.results@[0]) {
        lemma_convert_locally_from(
            s,
            plan,
            operation.inputs@[0],
            outputs,
            provenance_of(operation),
            0,
        );
    }
}

pub proof fn lemma_gather_intersections<M: Target>(
    target: &M,
    s: StateModel,
    operation: MidOperation,
    strategy: ConversionStrategy,
)
    ensures
        match gather_intersections(target, s, operation, strategy) {
            Ok(t) => follows(s, t),
            Err(_) => true,
        },
{
    broadcast use group_follows;

    if operation.inputs@.len() != 1 {
    } else if operation.results@.len() != 1 {
    } else if let Ok(sources) = value_shards(s, operation.inputs@[0]) {
        if let Ok(outputs) = value_shards(s, operation.results@[0]) {
            if strategy == ConversionStrategy::LocalKernel {
            } else if let Ok(mappings) = retiling_from(
                s.shards,
                sources,
                outputs,
                0,
                Seq::empty(),
            ) {
                lemma_lower_mapped_views(
                    target,
                    s,
                    mappings,
                    strategy == ConversionStrategy::StageLogicalThenTransform,
                    ExchangeOrder::Semantic,
                    provenance_of(operation),
                );
            }
        }
    }
}

pub proof fn lemma_push_cast_staging(
    s: StateModel,
    precision: Precision,
    outputs: Seq<LowShardId>,
    k: int,
    done: Seq<LowShardId>,
)
    requires
        0 <= k == done.len(),
        staged_beside(s.shards, done, outputs),
    ensures
        match push_cast_staging_from(s, precision, outputs, k, done) {
            Ok((t, scratch)) => follows(s, t) && staged_beside(t.shards, scratch, outputs),
            Err(_) => true,
        },
    decreases outputs.len() - k,
{
    broadcast use group_follows;

    if k >= outputs.len() {
    } else if let Ok(output) = shard_of(s.shards, outputs[k]) {
        let staging = cast_staging(precision, output);
        lemma_push_shard(s, staging);
        if let Ok((next, id)) = push_shard(s, staging) {
            let more = done.push(id);
            assert forall|i: int| 0 <= i < more.len() implies stands_beside(
                next.shards,
                #[trigger] more[i],
                outputs[i],
            ) by {
                if i < k {
                    assert(stands_beside(s.shards, done[i], outputs[i]));
                }
            }
            lemma_push_cast_staging(next, precision, outputs, k + 1, more);
        }
    }
}

pub proof fn lemma_cast_from(
    s: StateModel,
    precision: Precision,
    scratch: Seq<LowShardId>,
    outputs: Seq<LowShardId>,
    provenance: WorkProvenance,
    k: int,
)
    requires
        0 <= k,
        staged_beside(s.shards, scratch, outputs),
    ensures
        match cast_from(s, precision, scratch, outputs, provenance, k) {
            Ok(t) => follows(s, t),
            Err(_) => true,
        },
    decreases scratch.len() - k,
{
    broadcast use group_follows;

    if k >= scratch.len() {
    } else if let Ok(from) = full_view(s.shards, scratch[k]) {
        if let Ok(to) = shard_of(s.shards, outputs[k]) {
            let run = cast_run(
                precision,
                to.tensor_type.format,
                from,
                ViewModel { shard: outputs[k], extents: to.extents },
                provenance,
            );
            assert(stands_beside(s.shards, scratch[k], outputs[k]));
            assert(resides(s.shards, outputs[k], to.tile));
            lemma_unary_resides(s.shards, run, from, to.tile);
            lemma_append_kernel(s, to.tile, run);
            if let Ok(next) = append_kernel(s, to.tile, run) {
                lemma_still_beside(s, next, scratch, outputs);
                lemma_cast_from(next, precision, scratch, outputs, provenance, k + 1);
            }
        }
    }
}

/// Scratch shards stay beside their outputs.
pub proof fn lemma_still_beside(
    s: StateModel,
    t: StateModel,
    scratch: Seq<LowShardId>,
    outputs: Seq<LowShardId>,
)
    requires
        follows(s, t),
        staged_beside(s.shards, scratch, outputs),
    ensures
        staged_beside(t.shards, scratch, outputs),
{
    broadcast use group_follows;

    assert forall|i: int| 0 <= i < scratch.len() implies stands_beside(
        t.shards,
        #[trigger] scratch[i],
        outputs[i],
    ) by {
        assert(stands_beside(s.shards, scratch[i], outputs[i]));
        let tile = s.shards[outputs[i].0 as int].tile;
        assert(resides(s.shards, outputs[i], tile));
        assert(resides(s.shards, scratch[i], tile));
        assert(resides(t.shards, outputs[i], tile));
        assert(resides(t.shards, scratch[i], tile));
    }
}

pub proof fn lemma_gather_and_cast<M: Target>(
    target: &M,
    s: StateModel,
    operation: MidOperation,
    sources: Seq<LowShardId>,
    outputs: Seq<LowShardId>,
    precision: Precision,
    strategy: ConversionStrategy,
)
    ensures
        match gather_and_cast(target, s, operation, sources, outputs, precision, strategy) {
            Ok(t) => follows(s, t),
            Err(_) => true,
        },
{
    broadcast use group_follows;

    lemma_push_cast_staging(s, precision, outputs, 0, Seq::empty());
    if let Ok((a, scratch)) = push_cast_staging_from(s, precision, outputs, 0, Seq::empty()) {
        if let Ok(mappings) = retiling_from(a.shards, sources, scratch, 0, Seq::empty()) {
            let logical = strategy == ConversionStrategy::StageLogicalThenTransform;
            lemma_lower_mapped_views(
                target,
                a,
                mappings,
                logical,
                ExchangeOrder::Semantic,
                provenance_of(operation),
            );
            if let Ok(b) = lower_mapped_views(
                target,
                a,
                mappings,
                logical,
                ExchangeOrder::Semantic,
                provenance_of(operation),
            ) {
                lemma_still_beside(a, b, scratch, outputs);
                lemma_cast_from(
                    b,
                    precision,
                    scratch,
                    outputs,
                    provenance_of(operation),
                    0,
                );
            }
        }
    }
}

pub proof fn lemma_lower_unplanned_conversion<M: Target>(
    target: &M,
    s: StateModel,
    operation: MidOperation,
)
    ensures
        match lower_unplanned_conversion(target, s, operation) {
            Ok(t) => follows(s, t),
            Err(_) => true,
        },
{
    broadcast use group_follows;

    if let Ok(formats) = converted_formats(s, operation) {
        let strategy = default_strategy(formats.0, formats.1);
        if needs_cast(operation, formats.0, formats.1) {
            lemma_gather_and_cast(
                target,
                s,
                operation,
                value_shards(s, operation.inputs@[0])->Ok_0,
                value_shards(s, operation.results@[0])->Ok_0,
                formats.0.precision,
                strategy,
            );
        } else {
            lemma_gather_intersections(target, s, operation, strategy);
        }
    }
}

pub proof fn lemma_lower_conversion<M: Target>(target: &M, s: StateModel, operation: MidOperation)
    ensures
        match lower_conversion(target, s, operation) {
            Ok(t) => follows(s, t),
            Err(_) => true,
        },
{
    broadcast use group_follows;

    if let Some(plan) = operation.conversion_plan {
        if plan.strategy == ConversionStrategy::LocalKernel {
            lemma_lower_local_conversion(s, operation, plan);
        } else {
            lemma_gather_intersections(target, s, operation, plan.strategy);
        }
    } else {
        lemma_lower_unplanned_conversion(target, s, operation);
    }
}

pub proof fn lemma_split_heads_logically<M: Target>(
    target: &M,
    s: StateModel,
    operation: MidOperation,
    sources: Seq<LowShardId>,
    outputs: Seq<LowShardId>,
    heads: u32,
    head_width: u32,
)
    ensures
        match split_heads_logically(target, s, operation, sources, outputs, heads, head_width) {
            Ok(t) => follows(s, t),
            Err(_) => true,
        },
{
    broadcast use group_follows;

    if let Ok(mappings) = split_head_mappings_from(
        s.shards,
        sources,
        outputs,
        heads,
        head_width,
        0,
        Seq::empty(),
    ) {
        lemma_lower_mapped_views(
            target,
            s,
            mappings,
            true,
            ExchangeOrder::Semantic,
            result_provenance(operation, WorkReason::OperatorInputs),
        );
    }
}

pub proof fn lemma_split_heads_unpacked<M: Target>(
    target: &M,
    s: StateModel,
    operation: MidOperation,
    order: ElementOrder,
    sources: Seq<LowShardId>,
    outputs: Seq<LowShardId>,
    heads: u32,
    head_width: u32,
)
    ensures
        match split_heads_unpacked(
            target,
            s,
            operation,
            order,
            sources,
            outputs,
            heads,
            head_width,
        ) {
            Ok(t) => follows(s, t),
            Err(_) => true,
        },
{
    broadcast use group_follows;

    if is_product_order(order) {
        lemma_unpack_amp(
            s,
            operation.inputs@[0],
            result_provenance(operation, WorkReason::OperatorKernel),
        );
        match unpack_amp(
            s,
            operation.inputs@[0],
            result_provenance(operation, WorkReason::OperatorKernel),
        ) {
            Err(_) => {},
            Ok((_, None)) => {},
            Ok((next, Some(staging))) => {
                lemma_split_heads_logically(
                    target,
                    next,
                    operation,
                    staging,
                    outputs,
                    heads,
                    head_width,
                );
            },
        }
    } else {
        lemma_split_heads_logically(target, s, operation, sources, outputs, heads, head_width);
    }
}

pub proof fn lemma_lower_split_heads<M: Target>(
    target: &M,
    s: StateModel,
    operation: MidOperation,
    operator: MidOperator,
)
    ensures
        match lower_split_heads(target, s, operation, operator) {
            Ok(t) => follows(s, t),
            Err(_) => true,
        },
{
    broadcast use group_follows;

    match operator {
        MidOperator::SplitHeads { heads } => {
            if operation.inputs@.len() != 1 {
            } else if operation.results@.len() != 1 {
            } else if let Ok(sources) = value_shards(s, operation.inputs@[0]) {
                if let Ok(from) = shard_of(s.shards, sources[0]) {
                    let shape = from.tensor_type.shape;
                    if shape.len() != 3
                        || heads == 0
                        || shape[2] / heads == 0
                        || shape[2] % heads != 0 {
                    } else {
                        let head_width = (shape[2] / heads) as u32;
                        if let Ok(outputs) = value_shards(s, operation.results@[0]) {
                            if let Ok(to) = shard_of(s.shards, outputs[0]) {
                                lemma_split_heads_between(
                                    target,
                                    s,
                                    operation,
                                    from,
                                    to,
                                    sources,
                                    outputs,
                                    heads,
                                    head_width,
                                );
                            }
                        }
                    }
                }
            }
        },
        _ => {},
    }
}

pub proof fn lemma_split_heads_between<M: Target>(
    target: &M,
    s: StateModel,
    operation: MidOperation,
    from: ShardModel,
    to: ShardModel,
    sources: Seq<LowShardId>,
    outputs: Seq<LowShardId>,
    heads: u32,
    head_width: u32,
)
    ensures
        match split_heads_between(
            target,
            s,
            operation,
            from,
            to,
            sources,
            outputs,
            heads,
            head_width,
        ) {
            Ok(t) => follows(s, t),
            Err(_) => true,
        },
{
    broadcast use group_follows;

    let order = from.tensor_type.format.layout.order;
    if target.spec_exchanges_panels(from.tensor_type.format, to.tensor_type.format) {
        if let Ok(mappings) = split_head_mappings_from(
            s.shards,
            sources,
            outputs,
            heads,
            head_width,
            0,
            Seq::empty(),
        ) {
            match micro_panels(target, s.shards, mappings) {
                Err(_) => {},
                Ok(Some(pieces)) => {
                    lemma_lower_mapped_views(
                        target,
                        s,
                        pieces,
                        false,
                        ExchangeOrder::Physical,
                        result_provenance(operation, WorkReason::OperatorInputs),
                    );
                },
                Ok(None) => {
                    lemma_split_heads_unpacked(
                        target,
                        s,
                        operation,
                        order,
                        sources,
                        outputs,
                        heads,
                        head_width,
                    );
                },
            }
        }
    } else {
        lemma_split_heads_unpacked(
            target,
            s,
            operation,
            order,
            sources,
            outputs,
            heads,
            head_width,
        );
    }
}

pub proof fn lemma_view_logically<M: Target>(
    target: &M,
    s: StateModel,
    operation: MidOperation,
    sources: Seq<LowShardId>,
    outputs: Seq<LowShardId>,
    view: AxisFactorView,
)
    ensures
        match view_logically(target, s, operation, sources, outputs, view) {
            Ok(t) => follows(s, t),
            Err(_) => true,
        },
{
    broadcast use group_follows;

    if let Ok(mappings) = view_mappings(s.shards, sources, outputs, view) {
        lemma_lower_mapped_views(
            target,
            s,
            mappings,
            true,
            ExchangeOrder::Semantic,
            result_provenance(operation, WorkReason::OperatorInputs),
        );
    }
}

pub proof fn lemma_view_unpacked<M: Target>(
    target: &M,
    s: StateModel,
    operation: MidOperation,
    source: ShardModel,
    sources: Seq<LowShardId>,
    outputs: Seq<LowShardId>,
    view: AxisFactorView,
)
    ensures
        match view_unpacked(target, s, operation, source, sources, outputs, view) {
            Ok(t) => follows(s, t),
            Err(_) => true,
        },
{
    broadcast use group_follows;

    if is_product_order(source.tensor_type.format.layout.order) {
        lemma_unpack_amp(
            s,
            operation.inputs@[0],
            result_provenance(operation, WorkReason::OperatorKernel),
        );
        match unpack_amp(
            s,
            operation.inputs@[0],
            result_provenance(operation, WorkReason::OperatorKernel),
        ) {
            Err(_) => {},
            Ok((_, None)) => {},
            Ok((next, Some(staging))) => {
                lemma_view_logically(target, next, operation, staging, outputs, view);
            },
        }
    } else {
        lemma_view_logically(target, s, operation, sources, outputs, view);
    }
}

pub proof fn lemma_lower_view<M: Target>(
    target: &M,
    s: StateModel,
    operation: MidOperation,
    view: AxisFactorView,
)
    ensures
        match lower_view(target, s, operation, view) {
            Ok(t) => follows(s, t),
            Err(_) => true,
        },
{
    broadcast use group_follows;

    if operation.inputs@.len() != 1 {
    } else if operation.results@.len() != 1 {
    } else if let Ok(sources) = value_shards(s, operation.inputs@[0]) {
        if let Ok(from) = shard_of(s.shards, sources[0]) {
            if let Ok(outputs) = value_shards(s, operation.results@[0]) {
                if let Ok(to) = shard_of(s.shards, outputs[0]) {
                    if target.spec_exchanges_panels(
                        from.tensor_type.format,
                        to.tensor_type.format,
                    ) {
                        if let Ok(mappings) = view_mappings(s.shards, sources, outputs, view) {
                            match micro_panels(target, s.shards, mappings) {
                                Err(_) => {},
                                Ok(Some(pieces)) => {
                                    lemma_lower_mapped_views(
                                        target,
                                        s,
                                        pieces,
                                        false,
                                        ExchangeOrder::Physical,
                                        result_provenance(operation, WorkReason::OperatorInputs),
                                    );
                                },
                                Ok(None) => {
                                    lemma_view_unpacked(
                                        target,
                                        s,
                                        operation,
                                        from,
                                        sources,
                                        outputs,
                                        view,
                                    );
                                },
                            }
                        }
                    } else {
                        lemma_view_unpacked(target, s, operation, from, sources, outputs, view);
                    }
                }
            }
        }
    }
}

pub proof fn lemma_receive_from(
    s: StateModel,
    tile: u16,
    views: Seq<ViewModel>,
    k: int,
    transfers: TransfersModel,
    done: Seq<Seq<ViewModel>>,
)
    requires
        operands_reside(s.shards, done, tile),
    ensures
        match receive_from(s, tile, views, k, transfers, done) {
            Ok((t, (_, inputs))) => follows(s, t) && operands_reside(t.shards, inputs, tile),
            Err(_) => true,
        },
    decreases views.len() - k,
{
    broadcast use group_follows;

    if k >= views.len() {
    } else if let Ok(from) = shard_of(s.shards, views[k].shard) {
        if from.tile == tile {
            lemma_operand_resides(s.shards, done, views[k], tile);
            lemma_receive_from(s, tile, views, k + 1, transfers, done.push(seq![views[k]]));
        } else {
            lemma_push_shard(s, receiving_shard(from, views[k].extents, tile));
            if let Ok((next, copy)) = push_shard(s, receiving_shard(from, views[k].extents, tile)) {
                let received = ViewModel { shard: copy, extents: views[k].extents };
                lemma_operand_resides(next.shards, done, received, tile);
                lemma_receive_from(
                    next,
                    tile,
                    views,
                    k + 1,
                    add_transfer(transfers, views[k], received),
                    done.push(seq![received]),
                );
            }
        }
    }
}

pub proof fn lemma_pointwise_from(
    s: StateModel,
    operation: MidOperation,
    kernel: KernelModel,
    mapping: PointwiseInputMapping,
    requirements: OperatorRequirementsModel,
    outputs: Seq<LowShardId>,
    k: int,
    transfers: TransfersModel,
    runs: Seq<(u16, RunModel)>,
)
    requires
        runs_reside(s.shards, runs),
    ensures
        match pointwise_from(
            s,
            operation,
            kernel,
            mapping,
            requirements,
            outputs,
            k,
            transfers,
            runs,
        ) {
            Ok((t, (_, more))) => follows(s, t) && runs_reside(t.shards, more),
            Err(_) => true,
        },
    decreases outputs.len() - k,
{
    broadcast use group_follows;

    if k >= outputs.len() {
    } else if let Ok(to) = shard_of(s.shards, outputs[k]) {
        if is_empty(to.extents) {
            lemma_pointwise_from(
                s,
                operation,
                kernel,
                mapping,
                requirements,
                outputs,
                k + 1,
                transfers,
                runs,
            );
        } else if let Ok(views) = pointwise_sources_from(
            s,
            operation.inputs@,
            mapping,
            to.tile,
            to.extents,
            0,
            Seq::empty(),
        ) {
            lemma_no_operands_reside(s.shards, to.tile);
            lemma_receive_from(s, to.tile, views, 0, transfers, Seq::empty());
            if let Ok((next, (more, inputs))) = receive_from(
                s,
                to.tile,
                views,
                0,
                transfers,
                Seq::empty(),
            ) {
                let run = operator_run(
                    WorkProvenance {
                        operation: operation.source,
                        value: Some(operation.results@[0]),
                        reason: WorkReason::OperatorKernel,
                    },
                    kernel,
                    inputs,
                    ViewModel { shard: outputs[k], extents: to.extents },
                    requirements,
                );
                assert(resides(s.shards, outputs[k], to.tile));
                lemma_run_resides(next.shards, run, to.tile);
                lemma_pushed_run_resides(next.shards, runs, to.tile, run);
                lemma_pointwise_from(
                    next,
                    operation,
                    kernel,
                    mapping,
                    requirements,
                    outputs,
                    k + 1,
                    more,
                    runs.push((to.tile, run)),
                );
            }
        }
    }
}

pub proof fn lemma_lower_pointwise(
    s: StateModel,
    operation: MidOperation,
    kernel: KernelModel,
    mapping: PointwiseInputMapping,
    requirements: OperatorRequirementsModel,
)
    ensures
        match lower_pointwise(s, operation, kernel, mapping, requirements) {
            Ok(t) => follows(s, t),
            Err(_) => true,
        },
{
    broadcast use group_follows;

    lemma_no_runs_reside(s.shards);
    if operation.results@.len() != 1 {
    } else if let Ok(outputs) = value_shards(s, operation.results@[0]) {
        lemma_pointwise_from(
            s,
            operation,
            kernel,
            mapping,
            requirements,
            outputs,
            0,
            Seq::empty(),
            Seq::empty(),
        );
        if let Ok((next, (transfers, runs))) = pointwise_from(
            s,
            operation,
            kernel,
            mapping,
            requirements,
            outputs,
            0,
            Seq::empty(),
            Seq::empty(),
        ) {
            lemma_append_ordered_phase(
                next,
                transfers,
                WorkProvenance {
                    operation: operation.source,
                    value: None,
                    reason: WorkReason::OperatorInputs,
                },
                ExchangeOrder::Semantic,
            );
            if let Ok(exchanged) = append_ordered_phase(
                next,
                transfers,
                WorkProvenance {
                    operation: operation.source,
                    value: None,
                    reason: WorkReason::OperatorInputs,
                },
                ExchangeOrder::Semantic,
            ) {
                lemma_append_kernels_from(exchanged, runs, 0);
            }
        }
    }
}

} // verus!
