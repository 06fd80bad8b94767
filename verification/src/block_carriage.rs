//! What happens to copies between blocks: each is carried over to its
//! destination, straight or through scratch storage on either side.

use crate::attention_coverage::still_sends;
use crate::block_exchange::{
    append_batch_exchange, append_materialization, batch_exchanges, block_exchanges,
    settle_loopback, settle_loopbacks_from,
};
use crate::block_packing::{pack_kernel, useful, CopyPolicy, PackingPolicy};
use crate::block_panels::{micro_panel_mappings, Mapping};
use crate::blocks::{
    allocation_shards, append_block_copies_from, append_block_copy, append_block_phase,
    append_block_run, append_block_runs_from, block_copies, block_of, plain_run, value_views,
    BlockExchangeModel, BlockKernelModel, BlockOperation, BlockRunModel, BlockTarget,
    BuilderModel, CopyOrder, ExpansionError,
};
use crate::carriage::{
    begins, lemma_added_transfer, lemma_still_stands, sends, sources_agree, stands_at, stands_in,
};
use crate::copies::on_tile;
use crate::copy_lowering::{
    clear_uncovered_from, collect_copies_from, collect_copy, copy_regions, copy_sources,
    prepare_copy_tensor, RequestModel,
};
use crate::low::{
    ExchangePhaseId, KernelRunId, LocalCopy, LocalCopyId, LowShardId, ShardModel, ViewModel,
    WorkProvenance,
};
use crate::materialize::{
    clear_unwritten, collect_destination, collect_groups_from, collect_mapping,
    collect_mappings_from, collect_settled, collect_staged, filed_mappings,
    lemma_clearing_keeps_blocks, packed_view, prepare_mapped_views, redirected, staging_block,
    transfers_in, with_transfer, words_of, BatchModel, LoopbackModel, MoveModel, PackedModel,
};
use crate::order::{lemma_slot_bounds, lemma_view_key_injective, slot_from, view_key, GroupModel};
use crate::phase::{destinations_of, lemma_sorted_views, sorted_views};
use crate::product_coverage::lemma_begins_on;
use crate::relay::gathered;
use crate::relay_delivery::{
    in_logical, is_relayed, lemma_gathering_adds_blocks, lemma_gathering_delivers,
};
use crate::state::TransfersModel;
use crate::tensor::ElementOrder;
use vstd::prelude::*;

verus! {

// ---------------------------------------------------------------- batches

/// The transfers of a batch are filed by source.
pub open spec fn batch_agrees(batch: BatchModel) -> bool {
    &&& sources_agree(batch.semantic)
    &&& sources_agree(batch.physical)
    &&& sources_agree(batch.panels)
}

/// A batch still does what it did before.
pub open spec fn batch_grows(a: BatchModel, b: BatchModel) -> bool {
    &&& still_sends(a.semantic, b.semantic)
    &&& still_sends(a.physical, b.physical)
    &&& still_sends(a.panels, b.panels)
    &&& begins(b.before, a.before)
    &&& begins(b.after, a.after)
    &&& begins(b.kernels, a.kernels)
    &&& begins(b.loopbacks, a.loopbacks)
}

proof fn lemma_sends_on(a: TransfersModel, b: TransfersModel, c: TransfersModel)
    requires
        still_sends(a, b),
        still_sends(b, c),
    ensures
        still_sends(a, c),
{
    assert forall|x: ViewModel, y: ViewModel| sends(a, x, y) implies #[trigger] sends(c, x, y) by {
        assert(sends(b, x, y));
    }
}

proof fn lemma_batch_grows_on(a: BatchModel, b: BatchModel, c: BatchModel)
    requires
        batch_grows(a, b),
        batch_grows(b, c),
    ensures
        batch_grows(a, c),
{
    lemma_sends_on(a.semantic, b.semantic, c.semantic);
    lemma_sends_on(a.physical, b.physical, c.physical);
    lemma_sends_on(a.panels, b.panels, c.panels);
    lemma_begins_on(a.before, b.before, c.before);
    lemma_begins_on(a.after, b.after, c.after);
    lemma_begins_on(a.kernels, b.kernels, c.kernels);
    lemma_begins_on(a.loopbacks, b.loopbacks, c.loopbacks);
}

proof fn lemma_with_transfer(
    batch: BatchModel,
    order: CopyOrder,
    source: ViewModel,
    destination: ViewModel,
)
    requires
        batch_agrees(batch),
    ensures
        batch_agrees(with_transfer(batch, order, source, destination)),
        batch_grows(batch, with_transfer(batch, order, source, destination)),
        sends(
            transfers_in(with_transfer(batch, order, source, destination), order),
            source,
            destination,
        ),
{
    lemma_added_transfer(transfers_in(batch, order), source, destination);
}

/// The copies of one view to another stand in a list, as the blocks stood when
/// they were collected.
pub open spec fn copies_listed<M: BlockTarget>(
    target: &M,
    shards: Seq<ShardModel>,
    list: Seq<(u16, LocalCopy)>,
    source: ViewModel,
    destination: ViewModel,
    tile: u16,
    order: CopyOrder,
) -> bool {
    match block_copies(target, shards, source, destination, order) {
        Ok(copies) => stands_in(list, on_tile(copies, tile)),
        Err(_) => false,
    }
}

proof fn lemma_still_listed<M: BlockTarget>(
    target: &M,
    shards: Seq<ShardModel>,
    before: Seq<(u16, LocalCopy)>,
    after: Seq<(u16, LocalCopy)>,
    source: ViewModel,
    destination: ViewModel,
    tile: u16,
    order: CopyOrder,
)
    requires
        begins(after, before),
        copies_listed(target, shards, before, source, destination, tile, order),
    ensures
        copies_listed(target, shards, after, source, destination, tile, order),
{
    let copies = block_copies(target, shards, source, destination, order)->Ok_0;
    lemma_still_stands(before, after, on_tile(copies, tile));
}

/// Copies bring a source into scratch storage, before the exchange.
pub open spec fn packs_into<M: BlockTarget>(
    target: &M,
    batch: BatchModel,
    source: ViewModel,
    words: ViewModel,
    order: CopyOrder,
) -> bool {
    exists|shards: Seq<ShardModel>, tile: u16| #[trigger]
        copies_listed(target, shards, batch.before, source, words, tile, order)
}

/// All scratch storage is filled before the exchange.
pub open spec fn packed_filled<M: BlockTarget>(target: &M, m: MoveModel) -> bool {
    forall|i: int|
        0 <= i < m.packed.len() ==> packs_into(
            target,
            m.batch,
            (#[trigger] m.packed[i]).source,
            m.packed[i].view,
            m.packed[i].order,
        )
}

proof fn lemma_still_packs<M: BlockTarget>(
    target: &M,
    a: BatchModel,
    b: BatchModel,
    source: ViewModel,
    words: ViewModel,
    order: CopyOrder,
)
    requires
        batch_grows(a, b),
        packs_into(target, a, source, words, order),
    ensures
        packs_into(target, b, source, words, order),
{
    let (shards, tile) = choose|shards: Seq<ShardModel>, tile: u16| #[trigger]
        copies_listed(target, shards, a.before, source, words, tile, order);
    lemma_still_listed(target, shards, a.before, b.before, source, words, tile, order);
}

/// A batch moves one view to another: by copies on a tile, as a candidate for
/// joining a transfer, or by a transfer of the source or of what holds it.
pub open spec fn batch_moves<M: BlockTarget>(
    target: &M,
    shards: Seq<ShardModel>,
    batch: BatchModel,
    source: ViewModel,
    destination: ViewModel,
    staged: bool,
    copy_order: CopyOrder,
    exchange_order: CopyOrder,
    words: ViewModel,
) -> bool {
    &&& source.shard.0 < shards.len()
    &&& destination.shard.0 < shards.len()
    &&& if shards[source.shard.0 as int].tile == shards[destination.shard.0 as int].tile {
        ||| !staged && batch.loopbacks.contains(
            LoopbackModel { source, destination, order: copy_order },
        )
        ||| copies_listed(
            target,
            shards,
            if staged {
                batch.before
            } else {
                batch.after
            },
            source,
            destination,
            shards[destination.shard.0 as int].tile,
            copy_order,
        )
    } else {
        &&& words == source || packs_into(target, batch, source, words, exchange_order)
        &&& sends(transfers_in(batch, exchange_order), words, destination)
    }
}

proof fn lemma_still_moves<M: BlockTarget>(
    target: &M,
    shards: Seq<ShardModel>,
    a: BatchModel,
    b: BatchModel,
    source: ViewModel,
    destination: ViewModel,
    staged: bool,
    copy_order: CopyOrder,
    exchange_order: CopyOrder,
    words: ViewModel,
)
    requires
        batch_grows(a, b),
        batch_moves(
            target,
            shards,
            a,
            source,
            destination,
            staged,
            copy_order,
            exchange_order,
            words,
        ),
    ensures
        batch_moves(
            target,
            shards,
            b,
            source,
            destination,
            staged,
            copy_order,
            exchange_order,
            words,
        ),
{
    let tile = shards[destination.shard.0 as int].tile;
    if shards[source.shard.0 as int].tile == tile {
        let loopback = LoopbackModel { source, destination, order: copy_order };
        if !staged && a.loopbacks.contains(loopback) {
            let i = choose|i: int| 0 <= i < a.loopbacks.len() && a.loopbacks[i] == loopback;
            assert(b.loopbacks[i] == loopback);
        } else if staged {
            lemma_still_listed(
                target,
                shards,
                a.before,
                b.before,
                source,
                destination,
                tile,
                copy_order,
            );
        } else {
            lemma_still_listed(
                target,
                shards,
                a.after,
                b.after,
                source,
                destination,
                tile,
                copy_order,
            );
        }
    } else if words != source {
        lemma_still_packs(target, a, b, source, words, exchange_order);
    }
}

// ---------------------------------------------------------------- collecting

/// What holds of collected work all along.
pub open spec fn collects<M: BlockTarget>(target: &M, m: MoveModel) -> bool {
    batch_agrees(m.batch) && packed_filled(target, m)
}

/// Collected work still does what it did before.
pub open spec fn move_grows(a: MoveModel, b: MoveModel) -> bool {
    begins(b.graph.shards, a.graph.shards) && batch_grows(a.batch, b.batch)
}

proof fn lemma_move_grows_on(a: MoveModel, b: MoveModel, c: MoveModel)
    requires
        move_grows(a, b),
        move_grows(b, c),
    ensures
        move_grows(a, c),
{
    lemma_begins_on(a.graph.shards, b.graph.shards, c.graph.shards);
    lemma_batch_grows_on(a.batch, b.batch, c.batch);
}

proof fn lemma_still_filled<M: BlockTarget>(target: &M, a: MoveModel, b: MoveModel)
    requires
        packed_filled(target, a),
        batch_grows(a.batch, b.batch),
        b.packed == a.packed,
    ensures
        packed_filled(target, b),
{
    assert forall|i: int| 0 <= i < b.packed.len() implies packs_into(
        target,
        b.batch,
        (#[trigger] b.packed[i]).source,
        b.packed[i].view,
        b.packed[i].order,
    ) by {
        let p = a.packed[i];
        lemma_still_packs(target, a.batch, b.batch, p.source, p.view, p.order);
    }
}

proof fn lemma_packed_view<M: BlockTarget>(
    target: &M,
    m: MoveModel,
    order: CopyOrder,
    source: ViewModel,
    i: int,
)
    requires
        0 <= i,
        packed_filled(target, m),
    ensures
        packed_view(m.packed, order, source, i) matches Some(view) ==> packs_into(
            target,
            m.batch,
            source,
            view,
            order,
        ),
    decreases m.packed.len() - i,
{
    if i < m.packed.len() {
        if m.packed[i].order == order && m.packed[i].source == source {
            assert(packs_into(
                target,
                m.batch,
                m.packed[i].source,
                m.packed[i].view,
                m.packed[i].order,
            ));
        } else {
            lemma_packed_view(target, m, order, source, i + 1);
        }
    }
}

proof fn lemma_words_of<M: BlockTarget>(
    target: &M,
    m: MoveModel,
    source: ViewModel,
    order: CopyOrder,
)
    requires
        collects(target, m),
    ensures
        match words_of(target, m, source, order) {
            Err(_) => true,
            Ok((next, words)) => {
                &&& collects(target, next)
                &&& move_grows(m, next)
                &&& words == source || packs_into(target, next.batch, source, words, order)
            },
        },
{
    if let Ok((next, words)) = words_of(target, m, source, order) {
        lemma_packed_view(target, m, order, source, 0);
        if next.packed.len() > m.packed.len() {
            let added = next.packed.last();
            let tile = m.graph.shards[source.shard.0 as int].tile;
            let copies = block_copies(target, next.graph.shards, source, words, order)->Ok_0;
            let part = on_tile(copies, tile);
            assert(stands_at(next.batch.before, part, m.batch.before.len() as int));
            assert(copies_listed(
                target,
                next.graph.shards,
                next.batch.before,
                source,
                words,
                tile,
                order,
            ));
            assert(packs_into(target, next.batch, source, words, order));
            assert(batch_grows(m.batch, next.batch));
            assert forall|i: int| 0 <= i < next.packed.len() implies packs_into(
                target,
                next.batch,
                (#[trigger] next.packed[i]).source,
                next.packed[i].view,
                next.packed[i].order,
            ) by {
                if i < m.packed.len() {
                    assert(next.packed[i] == m.packed[i]);
                    let p = m.packed[i];
                    lemma_still_packs(
                        target,
                        m.batch,
                        next.batch,
                        p.source,
                        p.view,
                        p.order,
                    );
                } else {
                    assert(next.packed[i] == PackedModel { order, source, view: words });
                }
            }
        }
    }
}

/// Collected work moves one view to another.
pub open spec fn collected_move<M: BlockTarget>(
    target: &M,
    shards: Seq<ShardModel>,
    batch: BatchModel,
    views: Mapping,
    staged: bool,
    copy_order: CopyOrder,
    exchange_order: CopyOrder,
) -> bool {
    exists|words: ViewModel| #[trigger]
        batch_moves(
            target,
            shards,
            batch,
            views.0,
            views.1,
            staged,
            copy_order,
            exchange_order,
            words,
        )
}

proof fn lemma_still_collected<M: BlockTarget>(
    target: &M,
    shards: Seq<ShardModel>,
    a: BatchModel,
    b: BatchModel,
    views: Mapping,
    staged: bool,
    copy_order: CopyOrder,
    exchange_order: CopyOrder,
)
    requires
        batch_grows(a, b),
        collected_move(target, shards, a, views, staged, copy_order, exchange_order),
    ensures
        collected_move(target, shards, b, views, staged, copy_order, exchange_order),
{
    let words = choose|words: ViewModel| #[trigger]
        batch_moves(
            target,
            shards,
            a,
            views.0,
            views.1,
            staged,
            copy_order,
            exchange_order,
            words,
        );
    lemma_still_moves(
        target,
        shards,
        a,
        b,
        views.0,
        views.1,
        staged,
        copy_order,
        exchange_order,
        words,
    );
}

proof fn lemma_collect_mapping<M: BlockTarget>(
    target: &M,
    m: MoveModel,
    mapping: Mapping,
    staging: Option<LowShardId>,
    copy_order: CopyOrder,
    exchange_order: CopyOrder,
)
    requires
        collects(target, m),
    ensures
        match collect_mapping(target, m, mapping, staging, copy_order, exchange_order) {
            Err(_) => true,
            Ok(next) => {
                &&& collects(target, next)
                &&& move_grows(m, next)
                &&& collected_move(
                    target,
                    m.graph.shards,
                    next.batch,
                    redirected(mapping, staging),
                    staging is Some,
                    copy_order,
                    exchange_order,
                )
            },
        },
{
    let (source, destination) = redirected(mapping, staging);
    let shards = m.graph.shards;
    if let Ok(next) = collect_mapping(target, m, mapping, staging, copy_order, exchange_order) {
        let tile = shards[destination.shard.0 as int].tile;
        if shards[source.shard.0 as int].tile == tile {
            let loopback = LoopbackModel { source, destination, order: copy_order };
            if next.batch.loopbacks.len() > m.batch.loopbacks.len() {
                assert(next.batch.loopbacks[m.batch.loopbacks.len() as int] == loopback);
            } else {
                let copies = block_copies(
                    target,
                    shards,
                    source,
                    destination,
                    copy_order,
                )->Ok_0;
                let part = on_tile(copies, tile);
                if staging is Some {
                    assert(stands_at(next.batch.before, part, m.batch.before.len() as int));
                } else {
                    assert(stands_at(next.batch.after, part, m.batch.after.len() as int));
                }
            }
            assert(batch_grows(m.batch, next.batch));
            lemma_still_filled(target, m, next);
            assert(batch_moves(
                target,
                shards,
                next.batch,
                source,
                destination,
                staging is Some,
                copy_order,
                exchange_order,
                source,
            ));
        } else {
            lemma_words_of(target, m, source, exchange_order);
            let (some, words) = words_of(target, m, source, exchange_order)->Ok_0;
            lemma_with_transfer(some.batch, exchange_order, words, destination);
            lemma_still_filled(target, some, next);
            assert(move_grows(some, next));
            lemma_move_grows_on(m, some, next);
            if words != source {
                lemma_still_packs(
                    target,
                    some.batch,
                    next.batch,
                    source,
                    words,
                    exchange_order,
                );
            }
            assert(batch_moves(
                target,
                shards,
                next.batch,
                source,
                destination,
                staging is Some,
                copy_order,
                exchange_order,
                words,
            ));
        }
    }
}

/// A mapping is collected, as the blocks stood then.
pub open spec fn is_collected<M: BlockTarget>(
    target: &M,
    batch: BatchModel,
    mapping: Mapping,
    staging: Option<LowShardId>,
    copy_order: CopyOrder,
    exchange_order: CopyOrder,
) -> bool {
    exists|shards: Seq<ShardModel>| #[trigger]
        collected_move(
            target,
            shards,
            batch,
            redirected(mapping, staging),
            staging is Some,
            copy_order,
            exchange_order,
        )
}

proof fn lemma_collected_on<M: BlockTarget>(
    target: &M,
    a: BatchModel,
    b: BatchModel,
    mapping: Mapping,
    staging: Option<LowShardId>,
    copy_order: CopyOrder,
    exchange_order: CopyOrder,
)
    requires
        batch_grows(a, b),
        is_collected(target, a, mapping, staging, copy_order, exchange_order),
    ensures
        is_collected(target, b, mapping, staging, copy_order, exchange_order),
{
    let shards = choose|shards: Seq<ShardModel>| #[trigger]
        collected_move(
            target,
            shards,
            a,
            redirected(mapping, staging),
            staging is Some,
            copy_order,
            exchange_order,
        );
    lemma_still_collected(
        target,
        shards,
        a,
        b,
        redirected(mapping, staging),
        staging is Some,
        copy_order,
        exchange_order,
    );
}

proof fn lemma_collect_mappings<M: BlockTarget>(
    target: &M,
    m: MoveModel,
    mappings: Seq<Mapping>,
    staging: Option<LowShardId>,
    copy_order: CopyOrder,
    exchange_order: CopyOrder,
    i: int,
)
    requires
        0 <= i,
        collects(target, m),
    ensures
        match collect_mappings_from(
            target,
            m,
            mappings,
            staging,
            copy_order,
            exchange_order,
            i,
        ) {
            Err(_) => true,
            Ok(next) => {
                &&& collects(target, next)
                &&& move_grows(m, next)
                &&& forall|j: int|
                    i <= j < mappings.len() ==> is_collected(
                        target,
                        next.batch,
                        #[trigger] mappings[j],
                        staging,
                        copy_order,
                        exchange_order,
                    )
            },
        },
    decreases mappings.len() - i,
{
    if i < mappings.len() {
        lemma_collect_mapping(target, m, mappings[i], staging, copy_order, exchange_order);
        if let Ok(some) = collect_mapping(
            target,
            m,
            mappings[i],
            staging,
            copy_order,
            exchange_order,
        ) {
            assert(is_collected(
                target,
                some.batch,
                mappings[i],
                staging,
                copy_order,
                exchange_order,
            ));
            lemma_collect_mappings(
                target,
                some,
                mappings,
                staging,
                copy_order,
                exchange_order,
                i + 1,
            );
            if let Ok(next) = collect_mappings_from(
                target,
                m,
                mappings,
                staging,
                copy_order,
                exchange_order,
                i,
            ) {
                lemma_move_grows_on(m, some, next);
                lemma_collected_on(
                    target,
                    some.batch,
                    next.batch,
                    mappings[i],
                    staging,
                    copy_order,
                    exchange_order,
                );
            }
        }
    }
}

// ---------------------------------------------------------------- destinations

/// A batch moves a block out of its scratch storage, by a kernel or by copies
/// after the exchange.
pub open spec fn unloads<M: BlockTarget>(
    target: &M,
    batch: BatchModel,
    destination: LowShardId,
    staging: LowShardId,
    provenance: WorkProvenance,
    shards: Seq<ShardModel>,
) -> bool {
    let block = shards[destination.0 as int];
    let view = ViewModel { shard: staging, extents: shards[staging.0 as int].extents };
    &&& destination.0 < shards.len()
    &&& staging.0 < shards.len()
    &&& match pack_kernel(block.tensor_type) {
        Some(kernel) => batch.kernels.contains(
            (
                block.tile,
                plain_run(
                    provenance,
                    BlockKernelModel::Tile(kernel),
                    seq![view],
                    seq![ViewModel { shard: destination, extents: block.extents }],
                ),
            ),
        ),
        None => copies_listed(
            target,
            shards,
            batch.after,
            view,
            ViewModel { shard: destination, extents: useful(block.extents) },
            block.tile,
            CopyOrder::Semantic,
        ),
    }
}

/// A batch carries a mapping through scratch storage of its destination.
pub open spec fn carried_through<M: BlockTarget>(
    target: &M,
    batch: BatchModel,
    mapping: Mapping,
    staging: LowShardId,
    shards: Seq<ShardModel>,
    destination: LowShardId,
    copy_order: CopyOrder,
    exchange_order: CopyOrder,
    provenance: WorkProvenance,
) -> bool {
    &&& is_collected(target, batch, mapping, Some(staging), copy_order, exchange_order)
    &&& unloads(target, batch, destination, staging, provenance, shards)
}

/// A batch carries a mapping, straight or through scratch storage.
pub open spec fn is_carried<M: BlockTarget>(
    target: &M,
    batch: BatchModel,
    mapping: Mapping,
    destination: LowShardId,
    copy_order: CopyOrder,
    exchange_order: CopyOrder,
    provenance: WorkProvenance,
) -> bool {
    ||| is_collected(target, batch, mapping, None, copy_order, exchange_order)
    ||| exists|staging: LowShardId, shards: Seq<ShardModel>| #[trigger]
        carried_through(
            target,
            batch,
            mapping,
            staging,
            shards,
            destination,
            copy_order,
            exchange_order,
            provenance,
        )
}

proof fn lemma_still_carried<M: BlockTarget>(
    target: &M,
    a: BatchModel,
    b: BatchModel,
    mapping: Mapping,
    destination: LowShardId,
    copy_order: CopyOrder,
    exchange_order: CopyOrder,
    provenance: WorkProvenance,
)
    requires
        batch_grows(a, b),
        is_carried(
            target,
            a,
            mapping,
            destination,
            copy_order,
            exchange_order,
            provenance,
        ),
    ensures
        is_carried(
            target,
            b,
            mapping,
            destination,
            copy_order,
            exchange_order,
            provenance,
        ),
{
    if is_collected(target, a, mapping, None, copy_order, exchange_order) {
        lemma_collected_on(target, a, b, mapping, None, copy_order, exchange_order);
    } else {
        let (staging, shards) = choose|staging: LowShardId, shards: Seq<ShardModel>| #[trigger]
            carried_through(
                target,
                a,
                mapping,
                staging,
                shards,
                destination,
                copy_order,
                exchange_order,
                provenance,
            );
        lemma_collected_on(target, a, b, mapping, Some(staging), copy_order, exchange_order);
        let block = shards[destination.0 as int];
        let view = ViewModel { shard: staging, extents: shards[staging.0 as int].extents };
        match pack_kernel(block.tensor_type) {
            Some(kernel) => {
                let run = (
                    block.tile,
                    plain_run(
                        provenance,
                        BlockKernelModel::Tile(kernel),
                        seq![view],
                        seq![ViewModel { shard: destination, extents: block.extents }],
                    ),
                );
                let i = choose|i: int| 0 <= i < a.kernels.len() && a.kernels[i] == run;
                assert(b.kernels[i] == run);
            },
            None => {
                lemma_still_listed(
                    target,
                    shards,
                    a.after,
                    b.after,
                    view,
                    ViewModel { shard: destination, extents: useful(block.extents) },
                    block.tile,
                    CopyOrder::Semantic,
                );
            },
        }
        assert(carried_through(
            target,
            b,
            mapping,
            staging,
            shards,
            destination,
            copy_order,
            exchange_order,
            provenance,
        ));
    }
}

/// All mappings into a block are carried.
pub open spec fn all_carried<M: BlockTarget>(
    target: &M,
    batch: BatchModel,
    mappings: Seq<Mapping>,
    destination: LowShardId,
    copy_order: CopyOrder,
    exchange_order: CopyOrder,
    provenance: WorkProvenance,
) -> bool {
    forall|j: int|
        0 <= j < mappings.len() ==> is_carried(
            target,
            batch,
            #[trigger] mappings[j],
            destination,
            copy_order,
            exchange_order,
            provenance,
        )
}

proof fn lemma_collect_staged<M: BlockTarget>(
    target: &M,
    m: MoveModel,
    destination: LowShardId,
    block: ShardModel,
    mappings: Seq<Mapping>,
    copy_order: CopyOrder,
    exchange_order: CopyOrder,
    provenance: WorkProvenance,
)
    requires
        collects(target, m),
    ensures
        match collect_staged(
            target,
            m,
            destination,
            block,
            mappings,
            copy_order,
            exchange_order,
            provenance,
        ) {
            Err(_) => true,
            Ok(next) => {
                &&& collects(target, next)
                &&& move_grows(m, next)
                &&& all_carried(
                    target,
                    next.batch,
                    mappings,
                    destination,
                    copy_order,
                    exchange_order,
                    provenance,
                )
            },
        },
{
    if let Ok(next) = collect_staged(
        target,
        m,
        destination,
        block,
        mappings,
        copy_order,
        exchange_order,
        provenance,
    ) {
        let (pushed, staging) = crate::blocks::push_block(m.graph, staging_block(block))->Ok_0;
        lemma_clearing_keeps_blocks(
            target,
            pushed,
            staging,
            mappings,
            CopyOrder::Semantic,
            provenance,
        );
        let cleared = clear_unwritten(
            target,
            pushed,
            staging,
            mappings,
            CopyOrder::Semantic,
            provenance,
        )->Ok_0;
        let start = MoveModel { graph: cleared, ..m };
        lemma_still_filled(target, m, start);
        assert(move_grows(m, start));
        lemma_collect_mappings(
            target,
            start,
            mappings,
            Some(staging),
            copy_order,
            exchange_order,
            0,
        );
        let some = collect_mappings_from(
            target,
            start,
            mappings,
            Some(staging),
            copy_order,
            exchange_order,
            0,
        )->Ok_0;
        lemma_move_grows_on(m, start, some);
        let shards = some.graph.shards;
        let to = shards[destination.0 as int];
        let view = ViewModel { shard: staging, extents: shards[staging.0 as int].extents };
        match pack_kernel(to.tensor_type) {
            Some(kernel) => {
                let run = (
                    to.tile,
                    plain_run(
                        provenance,
                        BlockKernelModel::Tile(kernel),
                        seq![view],
                        seq![ViewModel { shard: destination, extents: to.extents }],
                    ),
                );
                assert(next.batch.kernels[some.batch.kernels.len() as int] == run);
            },
            None => {
                let copies = block_copies(
                    target,
                    shards,
                    view,
                    ViewModel { shard: destination, extents: useful(to.extents) },
                    CopyOrder::Semantic,
                )->Ok_0;
                assert(stands_at(
                    next.batch.after,
                    on_tile(copies, to.tile),
                    some.batch.after.len() as int,
                ));
            },
        }
        assert(batch_grows(some.batch, next.batch));
        lemma_still_filled(target, some, next);
        lemma_move_grows_on(m, some, next);
        assert(unloads(target, next.batch, destination, staging, provenance, shards));
        assert forall|j: int| 0 <= j < mappings.len() implies is_carried(
            target,
            next.batch,
            #[trigger] mappings[j],
            destination,
            copy_order,
            exchange_order,
            provenance,
        ) by {
            lemma_collected_on(
                target,
                some.batch,
                next.batch,
                mappings[j],
                Some(staging),
                copy_order,
                exchange_order,
            );
            assert(carried_through(
                target,
                next.batch,
                mappings[j],
                staging,
                shards,
                destination,
                copy_order,
                exchange_order,
                provenance,
            ));
        }
    }
}

proof fn lemma_collect_settled<M: BlockTarget>(
    target: &M,
    m: MoveModel,
    destination: LowShardId,
    mappings: Seq<Mapping>,
    copy_order: CopyOrder,
    exchange_order: CopyOrder,
    packing: PackingPolicy,
    provenance: WorkProvenance,
)
    requires
        collects(target, m),
    ensures
        match collect_settled(
            target,
            m,
            destination,
            mappings,
            copy_order,
            exchange_order,
            packing,
            provenance,
        ) {
            Err(_) => true,
            Ok(next) => {
                &&& collects(target, next)
                &&& move_grows(m, next)
                &&& all_carried(
                    target,
                    next.batch,
                    mappings,
                    destination,
                    copy_order,
                    exchange_order,
                    provenance,
                )
            },
        },
{
    if let Ok(next) = collect_settled(
        target,
        m,
        destination,
        mappings,
        copy_order,
        exchange_order,
        packing,
        provenance,
    ) {
        let block = block_of(m.graph.shards, destination)->Ok_0;
        lemma_clearing_keeps_blocks(
            target,
            m.graph,
            destination,
            mappings,
            copy_order,
            provenance,
        );
        let storage = crate::materialize::mapped_storage_from(
            m.graph.shards,
            destination,
            mappings,
            0,
            Seq::empty(),
        )->Ok_0;
        let geometry = target.spec_geometry(
            block.tensor_type.format,
            block.extents,
            storage,
            copy_order,
        )->Ok_0;
        let staged = crate::block_packing::is_staged(target, block, geometry, packing)->Ok_0;
        let graph = if staged && pack_kernel(block.tensor_type) is Some {
            m.graph
        } else {
            clear_unwritten(
                target,
                m.graph,
                destination,
                mappings,
                copy_order,
                provenance,
            )->Ok_0
        };
        let start = MoveModel { graph, ..m };
        lemma_still_filled(target, m, start);
        assert(move_grows(m, start));
        if staged {
            lemma_collect_staged(
                target,
                start,
                destination,
                block,
                mappings,
                copy_order,
                exchange_order,
                provenance,
            );
        } else {
            lemma_collect_mappings(
                target,
                start,
                mappings,
                None,
                copy_order,
                exchange_order,
                0,
            );
        }
        lemma_move_grows_on(m, start, next);
    }
}

/// The mappings into a block as they are carried out: themselves, or divided
/// into panels or pieces of panels.
pub open spec fn carried_as<M: BlockTarget>(
    target: &M,
    shards: Seq<ShardModel>,
    mappings: Seq<Mapping>,
    copy_order: CopyOrder,
    exchange_order: CopyOrder,
    pieces: Seq<Mapping>,
    piece_order: CopyOrder,
    piece_exchange: CopyOrder,
) -> bool {
    ||| pieces == mappings && piece_order == copy_order && piece_exchange == exchange_order
    ||| micro_panel_mappings(target, shards, mappings) == Ok::<
        Option<(Seq<Mapping>, CopyOrder)>,
        ExpansionError,
    >(Some((pieces, piece_order))) && piece_exchange == piece_order
}

/// A block is populated with the given pieces.
pub open spec fn populated_with<M: BlockTarget>(
    target: &M,
    batch: BatchModel,
    destination: LowShardId,
    mappings: Seq<Mapping>,
    copy_order: CopyOrder,
    exchange_order: CopyOrder,
    provenance: WorkProvenance,
    shards: Seq<ShardModel>,
    pieces: Seq<Mapping>,
    piece_order: CopyOrder,
    piece_exchange: CopyOrder,
) -> bool {
    &&& carried_as(
        target,
        shards,
        mappings,
        copy_order,
        exchange_order,
        pieces,
        piece_order,
        piece_exchange,
    )
    &&& all_carried(
        target,
        batch,
        pieces,
        destination,
        piece_order,
        piece_exchange,
        provenance,
    )
}

/// A batch populates a block from its mappings.
pub open spec fn populates<M: BlockTarget>(
    target: &M,
    batch: BatchModel,
    destination: LowShardId,
    mappings: Seq<Mapping>,
    copy_order: CopyOrder,
    exchange_order: CopyOrder,
    provenance: WorkProvenance,
) -> bool {
    exists|
        shards: Seq<ShardModel>,
        pieces: Seq<Mapping>,
        piece_order: CopyOrder,
        piece_exchange: CopyOrder,
    | #[trigger]
        populated_with(
            target,
            batch,
            destination,
            mappings,
            copy_order,
            exchange_order,
            provenance,
            shards,
            pieces,
            piece_order,
            piece_exchange,
        )
}

proof fn lemma_still_populates<M: BlockTarget>(
    target: &M,
    a: BatchModel,
    b: BatchModel,
    destination: LowShardId,
    mappings: Seq<Mapping>,
    copy_order: CopyOrder,
    exchange_order: CopyOrder,
    provenance: WorkProvenance,
)
    requires
        batch_grows(a, b),
        populates(
            target,
            a,
            destination,
            mappings,
            copy_order,
            exchange_order,
            provenance,
        ),
    ensures
        populates(
            target,
            b,
            destination,
            mappings,
            copy_order,
            exchange_order,
            provenance,
        ),
{
    let (shards, pieces, piece_order, piece_exchange) = choose|
        shards: Seq<ShardModel>,
        pieces: Seq<Mapping>,
        piece_order: CopyOrder,
        piece_exchange: CopyOrder,
    | #[trigger]
        populated_with(
            target,
            a,
            destination,
            mappings,
            copy_order,
            exchange_order,
            provenance,
            shards,
            pieces,
            piece_order,
            piece_exchange,
        );
    assert forall|j: int| 0 <= j < pieces.len() implies is_carried(
        target,
        b,
        #[trigger] pieces[j],
        destination,
        piece_order,
        piece_exchange,
        provenance,
    ) by {
        lemma_still_carried(
            target,
            a,
            b,
            pieces[j],
            destination,
            piece_order,
            piece_exchange,
            provenance,
        );
    }
    assert(populated_with(
        target,
        b,
        destination,
        mappings,
        copy_order,
        exchange_order,
        provenance,
        shards,
        pieces,
        piece_order,
        piece_exchange,
    ));
}

proof fn lemma_collect_destination<M: BlockTarget>(
    target: &M,
    m: MoveModel,
    destination: LowShardId,
    mappings: Seq<Mapping>,
    copy_order: CopyOrder,
    exchange_order: CopyOrder,
    packing: PackingPolicy,
    provenance: WorkProvenance,
)
    requires
        collects(target, m),
    ensures
        match collect_destination(
            target,
            m,
            destination,
            mappings,
            copy_order,
            exchange_order,
            packing,
            provenance,
        ) {
            Err(_) => true,
            Ok(next) => {
                &&& collects(target, next)
                &&& move_grows(m, next)
                &&& populates(
                    target,
                    next.batch,
                    destination,
                    mappings,
                    copy_order,
                    exchange_order,
                    provenance,
                )
            },
        },
{
    let shards = m.graph.shards;
    let divided = if copy_order == CopyOrder::Semantic && packing != PackingPolicy::Staged {
        micro_panel_mappings(target, shards, mappings)
    } else {
        Ok(None)
    };
    if let Ok(Some((pieces, order))) = divided {
        lemma_collect_settled(
            target,
            m,
            destination,
            pieces,
            order,
            order,
            packing,
            provenance,
        );
        if let Ok(next) = collect_settled(
            target,
            m,
            destination,
            pieces,
            order,
            order,
            packing,
            provenance,
        ) {
            assert(populated_with(
                target,
                next.batch,
                destination,
                mappings,
                copy_order,
                exchange_order,
                provenance,
                shards,
                pieces,
                order,
                order,
            ));
        }
    } else {
        lemma_collect_settled(
            target,
            m,
            destination,
            mappings,
            copy_order,
            exchange_order,
            packing,
            provenance,
        );
        if let Ok(next) = collect_settled(
            target,
            m,
            destination,
            mappings,
            copy_order,
            exchange_order,
            packing,
            provenance,
        ) {
            assert(populated_with(
                target,
                next.batch,
                destination,
                mappings,
                copy_order,
                exchange_order,
                provenance,
                shards,
                mappings,
                copy_order,
                exchange_order,
            ));
        }
    }
}

proof fn lemma_collect_groups<M: BlockTarget>(
    target: &M,
    m: MoveModel,
    groups: Seq<GroupModel<Mapping>>,
    copy_order: CopyOrder,
    exchange_order: CopyOrder,
    packing: PackingPolicy,
    provenance: WorkProvenance,
    g: int,
)
    requires
        0 <= g,
        collects(target, m),
    ensures
        match collect_groups_from(
            target,
            m,
            groups,
            copy_order,
            exchange_order,
            packing,
            provenance,
            g,
        ) {
            Err(_) => true,
            Ok(next) => {
                &&& collects(target, next)
                &&& move_grows(m, next)
                &&& forall|k: int|
                    g <= k < groups.len() ==> populates(
                        target,
                        next.batch,
                        (#[trigger] groups[k]).items[0].1.shard,
                        groups[k].items,
                        copy_order,
                        exchange_order,
                        provenance,
                    )
            },
        },
    decreases groups.len() - g,
{
    if g < groups.len() {
        let items = groups[g].items;
        let destination = items[0].1.shard;
        lemma_collect_destination(
            target,
            m,
            destination,
            items,
            copy_order,
            exchange_order,
            packing,
            provenance,
        );
        if let Ok(some) = collect_destination(
            target,
            m,
            destination,
            items,
            copy_order,
            exchange_order,
            packing,
            provenance,
        ) {
            lemma_collect_groups(
                target,
                some,
                groups,
                copy_order,
                exchange_order,
                packing,
                provenance,
                g + 1,
            );
            if let Ok(next) = collect_groups_from(
                target,
                m,
                groups,
                copy_order,
                exchange_order,
                packing,
                provenance,
                g,
            ) {
                lemma_move_grows_on(m, some, next);
                lemma_still_populates(
                    target,
                    some.batch,
                    next.batch,
                    destination,
                    items,
                    copy_order,
                    exchange_order,
                    provenance,
                );
            }
        }
    }
}

/// A mapping is among those of a group, which all have one destination.
pub open spec fn in_group(
    groups: Seq<GroupModel<Mapping>>,
    g: int,
    mapping: Mapping,
) -> bool {
    &&& 0 <= g < groups.len()
    &&& groups[g].items.contains(mapping)
    &&& groups[g].items[0].1.shard == mapping.1.shard
}

/// A mapping is in some group.
pub open spec fn is_grouped(groups: Seq<GroupModel<Mapping>>, mapping: Mapping) -> bool {
    exists|g: int| #[trigger] in_group(groups, g, mapping)
}

proof fn lemma_filed_blocks(mappings: Seq<Mapping>, count: int)
    requires
        0 <= count <= mappings.len(),
    ensures
        forall|g: int|
            0 <= g < filed_mappings(mappings, count).len() ==> (
            #[trigger] filed_mappings(mappings, count)[g]).items.len() > 0 && filed_mappings(
                mappings,
                count,
            )[g].key == seq![filed_mappings(mappings, count)[g].items[0].1.shard.0],
        forall|j: int|
            0 <= j < count ==> is_grouped(
                filed_mappings(mappings, count),
                #[trigger] mappings[j],
            ),
    decreases count,
{
    if count > 0 {
        lemma_filed_blocks(mappings, count - 1);
        let before = filed_mappings(mappings, count - 1);
        let after = filed_mappings(mappings, count);
        let mapping = mappings[count - 1];
        let key = seq![mapping.1.shard.0];
        let slot = slot_from(before, key, 0);
        lemma_slot_bounds(before, key);
        let joined = slot < before.len() && before[slot].key == key;
        if joined {
            assert(before[slot].key[0] == mapping.1.shard.0);
            assert(after[slot].items[0] == before[slot].items[0]);
            assert(after[slot].items[before[slot].items.len() as int] == mapping);
        } else {
            assert(after[slot].items[0] == mapping);
        }
        assert(in_group(after, slot, mapping));
        assert forall|g: int| 0 <= g < after.len() implies (#[trigger] after[g]).items.len() > 0
            && after[g].key == seq![after[g].items[0].1.shard.0] by {
            if g != slot {
                let origin = if joined || g < slot {
                    g
                } else {
                    g - 1
                };
                assert(after[g] == before[origin]);
            }
        }
        assert forall|j: int| 0 <= j < count implies is_grouped(
            after,
            #[trigger] mappings[j],
        ) by {
            if j < count - 1 {
                assert(is_grouped(before, mappings[j]));
                let g = choose|g: int| #[trigger] in_group(before, g, mappings[j]);
                let i = choose|i: int|
                    0 <= i < before[g].items.len() && before[g].items[i] == mappings[j];
                let moved = if joined || g < slot {
                    g
                } else {
                    g + 1
                };
                assert(after[moved].items[i] == mappings[j]);
                assert(after[moved].items[0] == before[g].items[0]);
                assert(in_group(after, moved, mappings[j]));
            }
        }
    }
}

/// A group of mappings that holds the given one is carried out.
pub open spec fn carries_group<M: BlockTarget>(
    target: &M,
    batch: BatchModel,
    mapping: Mapping,
    items: Seq<Mapping>,
    copy_order: CopyOrder,
    exchange_order: CopyOrder,
    provenance: WorkProvenance,
) -> bool {
    &&& items.contains(mapping)
    &&& populates(
        target,
        batch,
        mapping.1.shard,
        items,
        copy_order,
        exchange_order,
        provenance,
    )
}

/// Every copy is collected, and what was collected before stays: together with
/// the other copies into its block it is carried out as it is, or in panels. A
/// copy on one tile is made there, or joins a transfer of its source; one
/// between tiles is a transfer, of the source itself or of scratch storage that
/// copies fill first. Where the block has scratch storage, a kernel or copies
/// move it on after the exchange.
pub proof fn lemma_every_copy_is_collected<M: BlockTarget>(
    target: &M,
    s: BuilderModel,
    batch: BatchModel,
    mappings: Seq<Mapping>,
    copy_order: CopyOrder,
    exchange_order: CopyOrder,
    packing: PackingPolicy,
    provenance: WorkProvenance,
    j: int,
)
    requires
        batch_agrees(batch),
        0 <= j < mappings.len(),
    ensures
        match prepare_mapped_views(
            target,
            s,
            batch,
            mappings,
            copy_order,
            exchange_order,
            packing,
            provenance,
        ) {
            Err(_) => true,
            Ok(m) => batch_agrees(m.batch) && batch_grows(batch, m.batch) && begins(
                m.graph.shards,
                s.shards,
            ) && exists|
                items: Seq<Mapping>,
            | #[trigger]
                carries_group(
                    target,
                    m.batch,
                    mappings[j],
                    items,
                    copy_order,
                    exchange_order,
                    provenance,
                ),
        },
{
    let groups = filed_mappings(mappings, mappings.len() as int);
    let start = MoveModel { graph: s, batch, packed: Seq::empty() };
    lemma_filed_blocks(mappings, mappings.len() as int);
    lemma_collect_groups(
        target,
        start,
        groups,
        copy_order,
        exchange_order,
        packing,
        provenance,
        0,
    );
    if let Ok(m) = prepare_mapped_views(
        target,
        s,
        batch,
        mappings,
        copy_order,
        exchange_order,
        packing,
        provenance,
    ) {
        assert(is_grouped(groups, mappings[j]));
        let g = choose|g: int| #[trigger] in_group(groups, g, mappings[j]);
        assert(carries_group(
            target,
            m.batch,
            mappings[j],
            groups[g].items,
            copy_order,
            exchange_order,
            provenance,
        ));
    }
}

// ---------------------------------------------------------------- requests

/// A copy between blocks is carried out with the others into its block.
pub open spec fn in_carried_group<M: BlockTarget>(
    target: &M,
    batch: BatchModel,
    mapping: Mapping,
    order: CopyOrder,
    provenance: WorkProvenance,
) -> bool {
    exists|items: Seq<Mapping>| #[trigger]
        carries_group(target, batch, mapping, items, order, order, provenance)
}

/// The regions of a request were found, and all of them are carried out.
pub open spec fn carries_regions<M: BlockTarget>(
    target: &M,
    batch: BatchModel,
    request: RequestModel,
    s: BuilderModel,
    sources: Seq<ViewModel>,
    outputs: Seq<LowShardId>,
    shape: Seq<u32>,
    output_order: ElementOrder,
) -> bool {
    match copy_regions(target, s, request, sources, outputs, shape, output_order) {
        Err(_) => false,
        Ok((_, (mappings, order))) => forall|j: int|
            0 <= j < mappings.len() ==> in_carried_group(
                target,
                batch,
                #[trigger] mappings[j],
                order,
                request.provenance,
            ),
    }
}

/// A batch carries out a request, as the blocks stood when it was collected.
pub open spec fn carries_request<M: BlockTarget>(
    target: &M,
    batch: BatchModel,
    request: RequestModel,
) -> bool {
    exists|
        s: BuilderModel,
        sources: Seq<ViewModel>,
        outputs: Seq<LowShardId>,
        shape: Seq<u32>,
        output_order: ElementOrder,
    | #[trigger]
        carries_regions(
            target,
            batch,
            request,
            s,
            sources,
            outputs,
            shape,
            output_order,
        )
}

proof fn lemma_still_carries_request<M: BlockTarget>(
    target: &M,
    a: BatchModel,
    b: BatchModel,
    request: RequestModel,
)
    requires
        batch_grows(a, b),
        carries_request(target, a, request),
    ensures
        carries_request(target, b, request),
{
    let (s, sources, outputs, shape, output_order) = choose|
        s: BuilderModel,
        sources: Seq<ViewModel>,
        outputs: Seq<LowShardId>,
        shape: Seq<u32>,
        output_order: ElementOrder,
    | #[trigger]
        carries_regions(target, a, request, s, sources, outputs, shape, output_order);
    let (mappings, order) = copy_regions(
        target,
        s,
        request,
        sources,
        outputs,
        shape,
        output_order,
    )->Ok_0.1;
    assert forall|j: int| 0 <= j < mappings.len() implies in_carried_group(
        target,
        b,
        #[trigger] mappings[j],
        order,
        request.provenance,
    ) by {
        assert(in_carried_group(target, a, mappings[j], order, request.provenance));
        let items = choose|items: Seq<Mapping>| #[trigger]
            carries_group(
                target,
                a,
                mappings[j],
                items,
                order,
                order,
                request.provenance,
            );
        lemma_still_populates(
            target,
            a,
            b,
            mappings[j].1.shard,
            items,
            order,
            order,
            request.provenance,
        );
        assert(carries_group(
            target,
            b,
            mappings[j],
            items,
            order,
            order,
            request.provenance,
        ));
    }
    assert(carries_regions(target, b, request, s, sources, outputs, shape, output_order));
}

proof fn lemma_collect_copy<M: BlockTarget>(
    target: &M,
    s: BuilderModel,
    batch: BatchModel,
    request: RequestModel,
    sources: Seq<ViewModel>,
    outputs: Seq<LowShardId>,
    shape: Seq<u32>,
    output_order: ElementOrder,
)
    requires
        batch_agrees(batch),
    ensures
        match collect_copy(
            target,
            s,
            batch,
            request,
            sources,
            outputs,
            shape,
            output_order,
        ) {
            Err(_) => true,
            Ok((_, next)) => {
                &&& batch_agrees(next)
                &&& batch_grows(batch, next)
                &&& carries_request(target, next, request)
            },
        },
{
    if let Ok((_, next)) = collect_copy(
        target,
        s,
        batch,
        request,
        sources,
        outputs,
        shape,
        output_order,
    ) {
        let (unpacked, (mappings, order)) = copy_regions(
            target,
            s,
            request,
            sources,
            outputs,
            shape,
            output_order,
        )->Ok_0;
        let cleared = clear_uncovered_from(
            target,
            unpacked,
            outputs,
            mappings,
            request.provenance,
            0,
        )->Ok_0;
        let start = MoveModel { graph: cleared, batch, packed: Seq::empty() };
        lemma_collect_groups(
            target,
            start,
            filed_mappings(mappings, mappings.len() as int),
            order,
            order,
            request.packing,
            request.provenance,
            0,
        );
        assert forall|j: int| 0 <= j < mappings.len() implies in_carried_group(
            target,
            next,
            #[trigger] mappings[j],
            order,
            request.provenance,
        ) by {
            lemma_every_copy_is_collected(
                target,
                cleared,
                batch,
                mappings,
                order,
                order,
                request.packing,
                request.provenance,
                j,
            );
        }
        assert(carries_regions(
            target,
            next,
            request,
            s,
            sources,
            outputs,
            shape,
            output_order,
        ));
    }
}

/// A run of requests is collected as a whole: every request that is not left to
/// a kernel on its own tile is carried out, whatever is collected after it, and
/// so is what was collected before.
pub proof fn lemma_every_request_is_collected<M: BlockTarget>(
    target: &M,
    s: BuilderModel,
    batch: BatchModel,
    requests: Seq<RequestModel>,
    i: int,
    end: int,
)
    requires
        batch_agrees(batch),
        0 <= i <= end <= requests.len(),
    ensures
        match collect_copies_from(target, s, batch, requests, i, end) {
            Err(_) => true,
            Ok((_, collected)) => {
                &&& batch_agrees(collected)
                &&& batch_grows(batch, collected)
                &&& forall|k: int|
                    i <= k < end && (#[trigger] requests[k]).policy != CopyPolicy::LocalKernel
                        ==> carries_request(target, collected, requests[k])
            },
        },
    decreases end - i,
{
    if i < end {
        let request = requests[i];
        if let Ok((t, next)) = prepare_copy_tensor(target, s, batch, request) {
            if request.policy != CopyPolicy::LocalKernel {
                let inputs = value_views(s, request.inputs[0])->Ok_0;
                let outputs = allocation_shards(s, request.results[0])->Ok_0;
                let order = block_of(s.shards, outputs[0])->Ok_0.tensor_type.format.layout.order;
                let (ready, sources) = copy_sources(s, request, inputs, order)->Ok_0;
                lemma_collect_copy(
                    target,
                    ready,
                    batch,
                    request,
                    sources,
                    outputs,
                    s.types[request.inputs[0].0 as int].shape,
                    order,
                );
            }
            lemma_every_request_is_collected(target, t, next, requests, i + 1, end);
            if let Ok((_, collected)) = collect_copies_from(
                target,
                s,
                batch,
                requests,
                i,
                end,
            ) {
                lemma_batch_grows_on(batch, next, collected);
                if request.policy != CopyPolicy::LocalKernel {
                    lemma_still_carries_request(target, next, collected, request);
                }
            }
        }
    }
}

// ---------------------------------------------------------------- settling

/// A local copy joined the transfer of its source, or is made after it.
pub open spec fn is_settled<M: BlockTarget>(
    target: &M,
    shards: Seq<ShardModel>,
    batch: BatchModel,
    loopback: LoopbackModel,
) -> bool {
    ||| sends(transfers_in(batch, loopback.order), loopback.source, loopback.destination)
    ||| loopback.source.shard.0 < shards.len() && copies_listed(
        target,
        shards,
        batch.after,
        loopback.source,
        loopback.destination,
        shards[loopback.source.shard.0 as int].tile,
        loopback.order,
    )
}

proof fn lemma_settle_loopbacks<M: BlockTarget>(
    target: &M,
    shards: Seq<ShardModel>,
    batch: BatchModel,
    loopbacks: Seq<LoopbackModel>,
    i: int,
)
    requires
        0 <= i,
        batch_agrees(batch),
    ensures
        match settle_loopbacks_from(target, shards, batch, loopbacks, i) {
            Err(_) => true,
            Ok(settled) => {
                &&& batch_agrees(settled)
                &&& batch_grows(batch, settled)
                &&& forall|k: int|
                    i <= k < loopbacks.len() ==> is_settled(
                        target,
                        shards,
                        settled,
                        #[trigger] loopbacks[k],
                    )
            },
        },
    decreases loopbacks.len() - i,
{
    if i < loopbacks.len() {
        let LoopbackModel { source, destination, order } = loopbacks[i];
        if let Ok(next) = settle_loopback(target, shards, batch, loopbacks[i]) {
            let tile = shards[source.shard.0 as int].tile;
            if next.after.len() == batch.after.len() && next != (BatchModel {
                after: next.after,
                ..batch
            }) {
                lemma_with_transfer(batch, order, source, destination);
            } else if next == with_transfer(batch, order, source, destination) {
                lemma_with_transfer(batch, order, source, destination);
            } else {
                let copies = block_copies(target, shards, source, destination, order)->Ok_0;
                assert(stands_at(
                    next.after,
                    on_tile(copies, tile),
                    batch.after.len() as int,
                ));
            }
            assert(batch_agrees(next) && batch_grows(batch, next));
            assert(is_settled(target, shards, next, loopbacks[i]));
            lemma_settle_loopbacks(target, shards, next, loopbacks, i + 1);
            if let Ok(settled) = settle_loopbacks_from(target, shards, batch, loopbacks, i) {
                lemma_batch_grows_on(batch, next, settled);
                if !sends(transfers_in(next, order), source, destination) {
                    lemma_still_listed(
                        target,
                        shards,
                        next.after,
                        settled.after,
                        source,
                        destination,
                        tile,
                        order,
                    );
                } else {
                    assert(sends(transfers_in(settled, order), source, destination));
                }
            }
        }
    }
}

// ---------------------------------------------------------------- scheduling

/// A graph still holds what it held before.
pub open spec fn graph_grows(s: BuilderModel, t: BuilderModel) -> bool {
    &&& begins(t.shards, s.shards)
    &&& begins(t.local_copies, s.local_copies)
    &&& begins(t.kernel_runs, s.kernel_runs)
    &&& begins(t.phases, s.phases)
    &&& begins(t.operations, s.operations)
}

proof fn lemma_graph_grows_on(a: BuilderModel, b: BuilderModel, c: BuilderModel)
    requires
        graph_grows(a, b),
        graph_grows(b, c),
    ensures
        graph_grows(a, c),
{
    lemma_begins_on(a.shards, b.shards, c.shards);
    lemma_begins_on(a.local_copies, b.local_copies, c.local_copies);
    lemma_begins_on(a.kernel_runs, b.kernel_runs, c.kernel_runs);
    lemma_begins_on(a.phases, b.phases, c.phases);
    lemma_begins_on(a.operations, b.operations, c.operations);
}

/// A graph makes a copy on a tile.
pub open spec fn makes_copy(s: BuilderModel, tile: u16, copy: LocalCopy) -> bool {
    exists|k: int|
        0 <= k < s.local_copies.len() && #[trigger] s.local_copies[k] == copy
            && s.operations.contains(
            BlockOperation::Copy { tile, copy: LocalCopyId(k as u32) },
        )
}

/// A graph makes a run on a tile.
pub open spec fn makes_block_run(s: BuilderModel, tile: u16, run: BlockRunModel) -> bool {
    exists|k: int|
        0 <= k < s.kernel_runs.len() && #[trigger] s.kernel_runs[k] == run
            && s.operations.contains(
            BlockOperation::Compute { tile, run: KernelRunId(k as u32) },
        )
}

/// A graph exchanges one view for another in the given order.
pub open spec fn makes_transfer(
    s: BuilderModel,
    source: ViewModel,
    destination: ViewModel,
    order: CopyOrder,
) -> bool {
    exists|p: int, x: int|
        0 <= p < s.phases.len() && 0 <= x < s.phases[p].transfers.len()
            && transfers_views(#[trigger] s.phases[p].transfers[x], source, destination, order)
            && s.operations.contains(BlockOperation::Exchange(s.phases[p].id))
}

/// An exchange carries one view to another.
pub open spec fn transfers_views(
    exchange: BlockExchangeModel,
    source: ViewModel,
    destination: ViewModel,
    order: CopyOrder,
) -> bool {
    exchange.source == source && exchange.destinations.contains(destination) && exchange.order
        == order
}

proof fn lemma_still_operates(
    s: BuilderModel,
    t: BuilderModel,
    operation: BlockOperation,
)
    requires
        graph_grows(s, t),
        s.operations.contains(operation),
    ensures
        t.operations.contains(operation),
{
    let i = choose|i: int| 0 <= i < s.operations.len() && s.operations[i] == operation;
    assert(t.operations[i] == operation);
}

proof fn lemma_copy_still_made(s: BuilderModel, t: BuilderModel, tile: u16, copy: LocalCopy)
    requires
        graph_grows(s, t),
        makes_copy(s, tile, copy),
    ensures
        makes_copy(t, tile, copy),
{
    let k = choose|k: int|
        0 <= k < s.local_copies.len() && #[trigger] s.local_copies[k] == copy
            && s.operations.contains(
            BlockOperation::Copy { tile, copy: LocalCopyId(k as u32) },
        );
    assert(t.local_copies[k] == copy);
    lemma_still_operates(s, t, BlockOperation::Copy { tile, copy: LocalCopyId(k as u32) });
}

proof fn lemma_run_still_made(s: BuilderModel, t: BuilderModel, tile: u16, run: BlockRunModel)
    requires
        graph_grows(s, t),
        makes_block_run(s, tile, run),
    ensures
        makes_block_run(t, tile, run),
{
    let k = choose|k: int|
        0 <= k < s.kernel_runs.len() && #[trigger] s.kernel_runs[k] == run
            && s.operations.contains(
            BlockOperation::Compute { tile, run: KernelRunId(k as u32) },
        );
    assert(t.kernel_runs[k] == run);
    lemma_still_operates(s, t, BlockOperation::Compute { tile, run: KernelRunId(k as u32) });
}

proof fn lemma_transfer_still_made(
    s: BuilderModel,
    t: BuilderModel,
    source: ViewModel,
    destination: ViewModel,
    order: CopyOrder,
)
    requires
        graph_grows(s, t),
        makes_transfer(s, source, destination, order),
    ensures
        makes_transfer(t, source, destination, order),
{
    let (p, x) = choose|p: int, x: int|
        0 <= p < s.phases.len() && 0 <= x < s.phases[p].transfers.len() && transfers_views(
            #[trigger] s.phases[p].transfers[x],
            source,
            destination,
            order,
        ) && s.operations.contains(BlockOperation::Exchange(s.phases[p].id));
    assert(t.phases[p] == s.phases[p]);
    lemma_still_operates(s, t, BlockOperation::Exchange(s.phases[p].id));
    assert(transfers_views(t.phases[p].transfers[x], source, destination, order));
}

proof fn lemma_append_block_copies(
    s: BuilderModel,
    copies: Seq<(u16, LocalCopy)>,
    i: int,
)
    requires
        0 <= i,
    ensures
        match append_block_copies_from(s, copies, i) {
            Err(_) => true,
            Ok(t) => {
                &&& graph_grows(s, t)
                &&& t.shards == s.shards
                &&& forall|k: int|
                    i <= k < copies.len() ==> makes_copy(
                        t,
                        (#[trigger] copies[k]).0,
                        copies[k].1,
                    )
            },
        },
    decreases copies.len() - i,
{
    if i < copies.len() {
        let (tile, copy) = copies[i];
        if let Ok(next) = append_block_copy(s, tile, copy) {
            let at = s.local_copies.len() as int;
            let operation = BlockOperation::Copy { tile, copy: LocalCopyId(at as u32) };
            assert(next.local_copies[at] == copy);
            assert(next.operations[s.operations.len() as int] == operation);
            assert(makes_copy(next, tile, copy));
            lemma_append_block_copies(next, copies, i + 1);
            if let Ok(t) = append_block_copies_from(s, copies, i) {
                assert(graph_grows(s, next));
                lemma_graph_grows_on(s, next, t);
                lemma_copy_still_made(next, t, tile, copy);
            }
        }
    }
}

proof fn lemma_append_block_runs(
    s: BuilderModel,
    runs: Seq<(u16, BlockRunModel)>,
    i: int,
)
    requires
        0 <= i,
    ensures
        match append_block_runs_from(s, runs, i) {
            Err(_) => true,
            Ok(t) => {
                &&& graph_grows(s, t)
                &&& t.shards == s.shards
                &&& forall|k: int|
                    i <= k < runs.len() ==> makes_block_run(
                        t,
                        (#[trigger] runs[k]).0,
                        runs[k].1,
                    )
            },
        },
    decreases runs.len() - i,
{
    if i < runs.len() {
        let (tile, run) = runs[i];
        if let Ok(next) = append_block_run(s, tile, run) {
            let at = s.kernel_runs.len() as int;
            let operation = BlockOperation::Compute { tile, run: KernelRunId(at as u32) };
            assert(next.kernel_runs[at] == run);
            assert(next.operations[s.operations.len() as int] == operation);
            assert(makes_block_run(next, tile, run));
            lemma_append_block_runs(next, runs, i + 1);
            if let Ok(t) = append_block_runs_from(s, runs, i) {
                assert(graph_grows(s, next));
                lemma_graph_grows_on(s, next, t);
                lemma_run_still_made(next, t, tile, run);
            }
        }
    }
}

/// What is recorded in one order is among the exchanges of a batch.
proof fn lemma_listed_exchange(
    transfers: TransfersModel,
    order: CopyOrder,
    source: ViewModel,
    destination: ViewModel,
) -> (g: int)
    requires
        sources_agree(transfers),
        sends(transfers, source, destination),
    ensures
        0 <= g < transfers.len(),
        transfers_views(
            block_exchanges(transfers, order)[g],
            source,
            destination,
            order,
        ),
{
    let (g, i) = choose|g: int, i: int|
        0 <= g < transfers.len() && 0 <= i < transfers[g].items.len()
            && #[trigger] transfers[g].items[i] == (source, destination);
    assert(transfers[g].items[0].0 == source) by {
        assert(transfers[g].key == view_key(transfers[g].items[0].0));
        assert(transfers[g].key == view_key(transfers[g].items[i].0));
        lemma_view_key_injective(transfers[g].items[0].0, source);
    }
    let views = destinations_of(transfers[g].items);
    lemma_sorted_views(views);
    assert(views[i] == destination);
    assert(views.contains(destination));
    assert(sorted_views(views).contains(destination));
    g
}

proof fn lemma_batch_exchange(
    batch: BatchModel,
    order: CopyOrder,
    source: ViewModel,
    destination: ViewModel,
) -> (x: int)
    requires
        batch_agrees(batch),
        sends(transfers_in(batch, order), source, destination),
    ensures
        0 <= x < batch_exchanges(batch).len(),
        transfers_views(batch_exchanges(batch)[x], source, destination, order),
{
    let a = block_exchanges(batch.semantic, CopyOrder::Semantic);
    let b = block_exchanges(batch.physical, CopyOrder::Physical);
    let c = block_exchanges(batch.panels, CopyOrder::Panels);
    let g = lemma_listed_exchange(transfers_in(batch, order), order, source, destination);
    let all = batch_exchanges(batch);
    assert(all == a + b + c);
    match order {
        CopyOrder::Semantic => {
            assert(all[g] == a[g]);
            g
        },
        CopyOrder::Physical => {
            assert(all[a.len() + g] == b[g]);
            a.len() + g
        },
        CopyOrder::Panels => {
            assert(all[a.len() + b.len() + g] == c[g]);
            a.len() + b.len() + g
        },
    }
}

proof fn lemma_append_exchange(
    s: BuilderModel,
    batch: BatchModel,
    provenance: WorkProvenance,
)
    requires
        batch_agrees(batch),
    ensures
        match append_block_phase(s, batch_exchanges(batch), provenance) {
            Err(_) => true,
            Ok(t) => {
                &&& graph_grows(s, t)
                &&& t.shards == s.shards
                &&& forall|source: ViewModel, destination: ViewModel, order: CopyOrder|
                    sends(transfers_in(batch, order), source, destination) ==>
                        #[trigger] makes_transfer(t, source, destination, order)
            },
        },
{
    let all = batch_exchanges(batch);
    if let Ok(t) = append_block_phase(s, all, provenance) {
        assert forall|source: ViewModel, destination: ViewModel, order: CopyOrder|
            sends(transfers_in(batch, order), source, destination) implies
            #[trigger] makes_transfer(t, source, destination, order) by {
            let x = lemma_batch_exchange(batch, order, source, destination);
            let p = s.phases.len() as int;
            let id = ExchangePhaseId(p as u32);
            assert(t.phases[p].transfers == all);
            assert(t.phases[p].id == id);
            assert(t.operations[s.operations.len() as int] == BlockOperation::Exchange(id));
            assert(transfers_views(t.phases[p].transfers[x], source, destination, order));
        }
    }
}

/// An exchange of a graph brings an element to a block through a relay, in place
/// of one of the given exchanges.
pub open spec fn makes_relay(
    s: BuilderModel,
    exchanges: Seq<BlockExchangeModel>,
    added: nat,
    receiver: LowShardId,
    at: Seq<int>,
) -> bool {
    exists|p: int, g: int, f: int, u: int, e: int|
        0 <= p < s.phases.len() && #[trigger] is_relayed(
            s.phases[p].transfers,
            exchanges,
            added,
            receiver,
            at,
            g,
            f,
            u,
            e,
        ) && s.operations.contains(BlockOperation::Exchange(s.phases[p].id))
}

/// Every element of a block that is no padding comes through a relay that was
/// added to the given blocks.
pub open spec fn relays_block(
    s: BuilderModel,
    exchanges: Seq<BlockExchangeModel>,
    shards: Seq<ShardModel>,
    receiver: LowShardId,
) -> bool {
    forall|at: Seq<int>| #[trigger]
        in_logical(shards[receiver.0 as int].extents, at) ==> makes_relay(
            s,
            exchanges,
            shards.len(),
            receiver,
            at,
        )
}

proof fn lemma_still_relays(
    s: BuilderModel,
    t: BuilderModel,
    exchanges: Seq<BlockExchangeModel>,
    shards: Seq<ShardModel>,
    receiver: LowShardId,
)
    requires
        graph_grows(s, t),
        relays_block(s, exchanges, shards, receiver),
    ensures
        relays_block(t, exchanges, shards, receiver),
{
    assert forall|at: Seq<int>| #[trigger]
        in_logical(shards[receiver.0 as int].extents, at) implies makes_relay(
        t,
        exchanges,
        shards.len(),
        receiver,
        at,
    ) by {
        assert(makes_relay(s, exchanges, shards.len(), receiver, at));
        let (p, g, f, u, e) = choose|p: int, g: int, f: int, u: int, e: int|
            0 <= p < s.phases.len() && #[trigger] is_relayed(
                s.phases[p].transfers,
                exchanges,
                shards.len(),
                receiver,
                at,
                g,
                f,
                u,
                e,
            ) && s.operations.contains(BlockOperation::Exchange(s.phases[p].id));
        assert(t.phases[p] == s.phases[p]);
        lemma_still_operates(s, t, BlockOperation::Exchange(s.phases[p].id));
        assert(is_relayed(
            t.phases[p].transfers,
            exchanges,
            shards.len(),
            receiver,
            at,
            g,
            f,
            u,
            e,
        ));
    }
}

/// What a batch sends is sent by the graph, or all of the block that it is sent
/// to comes through relays.
pub open spec fn is_sent(
    t: BuilderModel,
    batch: BatchModel,
    shards: Seq<ShardModel>,
    relay: bool,
    source: ViewModel,
    destination: ViewModel,
    order: CopyOrder,
) -> bool {
    ||| makes_transfer(t, source, destination, order)
    ||| relay && relays_block(t, batch_exchanges(batch), shards, destination.shard)
}

proof fn lemma_append_relayed<M: BlockTarget>(
    target: &M,
    s: BuilderModel,
    batch: BatchModel,
    provenance: WorkProvenance,
)
    requires
        batch_agrees(batch),
        batch_exchanges(batch).len() <= usize::MAX,
    ensures
        match append_batch_exchange(target, s, batch_exchanges(batch), provenance, true) {
            Err(_) => true,
            Ok(t) => {
                &&& graph_grows(s, t)
                &&& forall|source: ViewModel, destination: ViewModel, order: CopyOrder|
                    sends(transfers_in(batch, order), source, destination) ==> #[trigger]
                        is_sent(t, batch, s.shards, true, source, destination, order)
            },
        },
{
    let all = batch_exchanges(batch);
    lemma_gathering_adds_blocks(target, s, all);
    if let Ok(t) = append_batch_exchange(target, s, all, provenance, true) {
        let (next, result) = gathered(target, s, all)->Ok_0;
        let p = next.phases.len() as int;
        let id = ExchangePhaseId(p as u32);
        assert forall|source: ViewModel, destination: ViewModel, order: CopyOrder|
            sends(transfers_in(batch, order), source, destination) implies #[trigger] is_sent(
            t,
            batch,
            s.shards,
            true,
            source,
            destination,
            order,
        ) by {
            let x = lemma_batch_exchange(batch, order, source, destination);
            let d = choose|d: int|
                0 <= d < all[x].destinations.len() && all[x].destinations[d] == destination;
            if result.contains(all[x]) {
                let k = choose|k: int| 0 <= k < result.len() && result[k] == all[x];
                assert(t.phases[p].transfers == result);
                assert(t.phases[p].id == id);
                assert(t.operations[s.operations.len() as int] == BlockOperation::Exchange(id));
                assert(transfers_views(
                    t.phases[p].transfers[k],
                    source,
                    destination,
                    order,
                ));
            } else {
                assert forall|at: Seq<int>| #[trigger]
                    in_logical(s.shards[destination.shard.0 as int].extents, at) implies makes_relay(
                    t,
                    all,
                    s.shards.len(),
                    destination.shard,
                    at,
                ) by {
                    lemma_gathering_delivers(target, s, all, x, d, at);
                    let (g, f, u, e) = choose|g: int, f: int, u: int, e: int|
                        is_relayed(
                            result,
                            all,
                            s.shards.len(),
                            destination.shard,
                            at,
                            g,
                            f,
                            u,
                            e,
                        );
                    assert(t.phases[p].transfers == result);
                    assert(t.phases[p].id == id);
                    assert(t.operations[s.operations.len() as int] == BlockOperation::Exchange(
                        id,
                    ));
                    assert(is_relayed(
                        t.phases[p].transfers,
                        all,
                        s.shards.len(),
                        destination.shard,
                        at,
                        g,
                        f,
                        u,
                        e,
                    ));
                }
            }
        }
    }
}

/// A batch is carried out: local copies join transfers or are made after them,
/// and all copies, transfers and runs are in the graph. Where relays are asked
/// for, they may stand in for transfers.
pub proof fn lemma_batches_are_carried_out<M: BlockTarget>(
    target: &M,
    s: BuilderModel,
    batch: BatchModel,
    provenance: WorkProvenance,
    relay: bool,
)
    requires
        batch_agrees(batch),
        settle_loopbacks_from(target, s.shards, batch, batch.loopbacks, 0) matches Ok(settled)
            ==> batch_exchanges(settled).len() <= usize::MAX,
    ensures
        match append_materialization(target, s, batch, provenance, relay) {
            Err(_) => true,
            Ok(t) => match settle_loopbacks_from(target, s.shards, batch, batch.loopbacks, 0) {
                Err(_) => false,
                Ok(settled) => {
                    &&& batch_grows(batch, settled)
                    &&& forall|i: int|
                        0 <= i < batch.loopbacks.len() ==> is_settled(
                            target,
                            s.shards,
                            settled,
                            #[trigger] batch.loopbacks[i],
                        )
                    &&& graph_grows(s, t)
                    &&& forall|i: int|
                        0 <= i < settled.before.len() ==> makes_copy(
                            t,
                            (#[trigger] settled.before[i]).0,
                            settled.before[i].1,
                        )
                    &&& forall|source: ViewModel, destination: ViewModel, order: CopyOrder|
                        sends(transfers_in(settled, order), source, destination) ==> #[trigger]
                            is_sent(t, settled, s.shards, relay, source, destination, order)
                    &&& forall|i: int|
                        0 <= i < settled.after.len() ==> makes_copy(
                            t,
                            (#[trigger] settled.after[i]).0,
                            settled.after[i].1,
                        )
                    &&& forall|i: int|
                        0 <= i < settled.kernels.len() ==> makes_block_run(
                            t,
                            (#[trigger] settled.kernels[i]).0,
                            settled.kernels[i].1,
                        )
                },
            },
        },
{
    lemma_settle_loopbacks(target, s.shards, batch, batch.loopbacks, 0);
    if let Ok(t) = append_materialization(target, s, batch, provenance, relay) {
        let settled = settle_loopbacks_from(
            target,
            s.shards,
            batch,
            batch.loopbacks,
            0,
        )->Ok_0;
        let a = append_block_copies_from(s, settled.before, 0)->Ok_0;
        let b = append_batch_exchange(
            target,
            a,
            batch_exchanges(settled),
            provenance,
            relay,
        )->Ok_0;
        let c = append_block_copies_from(b, settled.after, 0)->Ok_0;
        lemma_append_block_copies(s, settled.before, 0);
        if relay {
            lemma_append_relayed(target, a, settled, provenance);
        } else {
            lemma_append_exchange(a, settled, provenance);
        }
        lemma_append_block_copies(b, settled.after, 0);
        lemma_append_block_runs(c, settled.kernels, 0);
        lemma_graph_grows_on(s, a, b);
        lemma_graph_grows_on(s, b, c);
        lemma_graph_grows_on(s, c, t);
        lemma_graph_grows_on(a, b, c);
        lemma_graph_grows_on(a, c, t);
        lemma_graph_grows_on(b, c, t);
        assert forall|i: int| 0 <= i < settled.before.len() implies makes_copy(
            t,
            (#[trigger] settled.before[i]).0,
            settled.before[i].1,
        ) by {
            lemma_copy_still_made(a, t, settled.before[i].0, settled.before[i].1);
        }
        assert forall|source: ViewModel, destination: ViewModel, order: CopyOrder|
            sends(transfers_in(settled, order), source, destination) implies #[trigger] is_sent(
            t,
            settled,
            s.shards,
            relay,
            source,
            destination,
            order,
        ) by {
            if relay {
                assert(is_sent(b, settled, s.shards, true, source, destination, order));
            } else {
                assert(makes_transfer(b, source, destination, order));
            }
            if makes_transfer(b, source, destination, order) {
                lemma_transfer_still_made(b, t, source, destination, order);
            } else {
                lemma_still_relays(
                    b,
                    t,
                    batch_exchanges(settled),
                    s.shards,
                    destination.shard,
                );
            }
        }
        assert forall|i: int| 0 <= i < settled.after.len() implies makes_copy(
            t,
            (#[trigger] settled.after[i]).0,
            settled.after[i].1,
        ) by {
            lemma_copy_still_made(c, t, settled.after[i].0, settled.after[i].1);
        }
    }
}

} // verus!
