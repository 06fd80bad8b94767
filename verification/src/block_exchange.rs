//! Scheduling collected copies: one exchange with the local work before and
//! after it.

use crate::blocks::{
    append_block_copies_from, append_block_phase, append_block_runs_from, block_of, block_spans,
    built, with_block_copies, BlockExchange, BlockExchangeModel, BlockStep, BlockTarget,
    BuilderModel, CopyOrder, ExpansionError, ExpansionResult, TileGraphBuilder,
};
use crate::fragments::{all_word_aligned, are_word_aligned};
use crate::low::{ShardModel, ShardView, ViewModel, WorkProvenance};
use crate::materialize::{
    transfers_in, well_filed, with_transfer, BatchModel, Loopback, LoopbackModel,
    MaterializationBatch,
};
use crate::model::{Model, deep, group_deep, same_words};
use crate::order::{items_under, key_less, key_of_view, slot_from, view_key};
use crate::phase::{destinations_of, sort_destinations, sorted_views, transfers_nonempty};
use crate::relay::gathered;
use crate::state::{Transfers, TransfersModel};
use crate::tensor::ByteSpan;
use vstd::prelude::*;

verus! {

/// The exchanges of recorded transfers: one for each source, in key order, with
/// its different destinations in key order.
pub open spec fn block_exchanges(transfers: TransfersModel, order: CopyOrder) -> Seq<
    BlockExchangeModel,
> {
    Seq::new(
        transfers.len(),
        |i: int|
            BlockExchangeModel {
                source: transfers[i].items[0].0,
                destinations: sorted_views(destinations_of(transfers[i].items)),
                order,
            },
    )
}

/// All exchanges of a batch.
pub open spec fn batch_exchanges(batch: BatchModel) -> Seq<BlockExchangeModel> {
    block_exchanges(batch.semantic, CopyOrder::Semantic) + block_exchanges(
        batch.physical,
        CopyOrder::Physical,
    ) + block_exchanges(batch.panels, CopyOrder::Panels)
}

/// Two lists of spans of the same sizes.
pub open spec fn same_sizes(a: Seq<ByteSpan>, b: Seq<ByteSpan>) -> bool {
    a.len() == b.len() && forall|i: int| 0 <= i < a.len() ==> (#[trigger] a[i]).bytes == b[i].bytes
}

/// The view travels in messages of the given sizes.
pub open spec fn travels_alike<M: BlockTarget>(
    target: &M,
    shards: Seq<ShardModel>,
    view: ViewModel,
    order: CopyOrder,
    spans: Seq<ByteSpan>,
) -> bool {
    match block_spans(target, shards, view, order) {
        Ok(other) => same_sizes(other, spans),
        Err(_) => false,
    }
}

/// The view is on another tile.
pub open spec fn is_remote(shards: Seq<ShardModel>, view: ViewModel, tile: u16) -> bool {
    view.shard.0 < shards.len() && shards[view.shard.0 as int].tile != tile
}

/// A local copy joins the transfer of its source: there are several receivers,
/// all on other tiles, the bytes are whole words, and no message is divided.
pub open spec fn joins_multicast<M: BlockTarget>(
    target: &M,
    shards: Seq<ShardModel>,
    items: Seq<(ViewModel, ViewModel)>,
    tile: u16,
    order: CopyOrder,
    source: Seq<ByteSpan>,
    destination: Seq<ByteSpan>,
) -> bool {
    &&& items.len() >= 2
    &&& all_word_aligned(source)
    &&& all_word_aligned(destination)
    &&& exists|i: int|
        0 <= i < items.len() && travels_alike(
            target,
            shards,
            (#[trigger] items[i]).1,
            order,
            destination,
        )
    &&& forall|i: int|
        0 <= i < items.len() ==> is_remote(shards, (#[trigger] items[i]).1, tile)
}

/// Settles one local copy: it joins the transfer of its source, or becomes a
/// copy after the exchange.
pub open spec fn settle_loopback<M: BlockTarget>(
    target: &M,
    shards: Seq<ShardModel>,
    batch: BatchModel,
    loopback: LoopbackModel,
) -> Result<BatchModel, ExpansionError> {
    let LoopbackModel { source, destination, order } = loopback;
    match block_spans(target, shards, source, order) {
        Err(e) => Err(e),
        Ok(a) => match block_spans(target, shards, destination, order) {
            Err(e) => Err(e),
            Ok(b) => match block_of(shards, source.shard) {
                Err(e) => Err(e),
                Ok(block) => if joins_multicast(
                    target,
                    shards,
                    items_under(transfers_in(batch, order), view_key(source)),
                    block.tile,
                    order,
                    a,
                    b,
                ) {
                    Ok(with_transfer(batch, order, source, destination))
                } else {
                    match with_block_copies(
                        target,
                        shards,
                        source,
                        destination,
                        block.tile,
                        order,
                        batch.after,
                    ) {
                        Err(e) => Err(e),
                        Ok(after) => Ok(BatchModel { after, ..batch }),
                    }
                },
            },
        },
    }
}

/// Settles the local copies from `i` on.
pub open spec fn settle_loopbacks_from<M: BlockTarget>(
    target: &M,
    shards: Seq<ShardModel>,
    batch: BatchModel,
    loopbacks: Seq<LoopbackModel>,
    i: int,
) -> Result<BatchModel, ExpansionError>
    decreases loopbacks.len() - i,
{
    if i >= loopbacks.len() {
        Ok(batch)
    } else {
        match settle_loopback(target, shards, batch, loopbacks[i]) {
            Err(e) => Err(e),
            Ok(next) => settle_loopbacks_from(target, shards, next, loopbacks, i + 1),
        }
    }
}

/// The exchange of a batch, through panels on idle tiles if `relay` is set.
pub open spec fn append_batch_exchange<M: BlockTarget>(
    target: &M,
    s: BuilderModel,
    transfers: Seq<BlockExchangeModel>,
    provenance: WorkProvenance,
    relay: bool,
) -> BlockStep {
    if relay {
        match gathered(target, s, transfers) {
            Err(e) => Err(e),
            Ok((next, transfers)) => append_block_phase(next, transfers, provenance),
        }
    } else {
        append_block_phase(s, transfers, provenance)
    }
}

/// Schedules a batch: copies, the exchange, more copies, and kernels.
pub open spec fn append_materialization<M: BlockTarget>(
    target: &M,
    s: BuilderModel,
    batch: BatchModel,
    provenance: WorkProvenance,
    relay: bool,
) -> BlockStep {
    match settle_loopbacks_from(target, s.shards, batch, batch.loopbacks, 0) {
        Err(e) => Err(e),
        Ok(settled) => match append_block_copies_from(s, settled.before, 0) {
            Err(e) => Err(e),
            Ok(prepared) => match append_batch_exchange(
                target,
                prepared,
                batch_exchanges(settled),
                provenance,
                relay,
            ) {
                Err(e) => Err(e),
                Ok(exchanged) => match append_block_copies_from(exchanged, settled.after, 0) {
                    Err(e) => Err(e),
                    Ok(copied) => append_block_runs_from(copied, settled.kernels, 0),
                },
            },
        },
    }
}

// ---------------------------------------------------------------- carrying out

fn exchanges_in(transfers: &Transfers, order: CopyOrder, exchanges: &mut Vec<BlockExchange>)
    requires
        transfers_nonempty(transfers@),
    ensures
        deep(final(exchanges)@) == deep(old(exchanges)@) + block_exchanges(transfers@, order),
{
    broadcast use group_deep;

    let ghost before = deep(exchanges@);
    let ghost all = block_exchanges(transfers@, order);
    let mut i: usize = 0;
    while i < transfers.entries.len()
        invariant
            i <= transfers.entries@.len(),
            deep(exchanges@) == before + all.take(i as int),
        decreases transfers.entries@.len() - i,
    {
        assert(transfers@[i as int] == transfers.entries@[i as int]@);
        assert(transfers@[i as int].items.len() > 0);
        let group = &transfers.entries[i];
        let source = group.items[0].0.duplicate();
        let destinations = sort_destinations(&group.items);
        let exchange = BlockExchange { source, destinations, order };
        assert(exchange@ == all[i as int]);
        exchanges.push(exchange);
        i += 1;
        assert(deep(exchanges@) =~= before + all.take(i as int));
    }
    assert(all.take(all.len() as int) =~= all);
}

fn are_same_sizes(a: &Vec<ByteSpan>, b: &Vec<ByteSpan>) -> (r: bool)
    ensures
        r == same_sizes(a@, b@),
{
    if a.len() != b.len() {
        return false;
    }
    let mut i: usize = 0;
    while i < a.len()
        invariant
            i <= a@.len(),
            a@.len() == b@.len(),
            forall|k: int| 0 <= k < i ==> (#[trigger] a@[k]).bytes == b@[k].bytes,
        decreases a@.len() - i,
    {
        if a[i].bytes != b[i].bytes {
            assert(a@[i as int].bytes != b@[i as int].bytes);
            return false;
        }
        i += 1;
    }
    true
}

/// Position of the transfers of a source, if there are any.
fn position_of(transfers: &Transfers, source: &ShardView) -> (r: Option<usize>)
    ensures
        match r {
            Some(at) => at < transfers.entries@.len() && items_under(
                transfers@,
                view_key(source@),
            ) == transfers@[at as int].items,
            None => items_under(transfers@, view_key(source@)).len() == 0,
        },
{
    broadcast use group_deep;

    let key = key_of_view(source);
    let mut slot: usize = 0;
    while slot < transfers.entries.len() && key_less(
        transfers.entries[slot].key.as_slice(),
        key.as_slice(),
    )
        invariant
            slot <= transfers.entries@.len(),
            slot_from(transfers@, key@, 0) == slot_from(transfers@, key@, slot as int),
        decreases transfers.entries@.len() - slot,
    {
        assert(transfers@[slot as int] == transfers.entries@[slot as int]@);
        slot += 1;
    }
    if slot < transfers.entries.len() {
        assert(transfers@[slot as int] == transfers.entries@[slot as int]@);
        assert(slot_from(transfers@, key@, 0) == slot);
        if same_words(transfers.entries[slot].key.as_slice(), key.as_slice()) {
            return Some(slot);
        }
    }
    None
}

impl TileGraphBuilder {
    fn may_join<M: BlockTarget>(
        &self,
        target: &M,
        items: &Vec<(ShardView, ShardView)>,
        tile: u16,
        order: CopyOrder,
        source: &Vec<ByteSpan>,
        destination: &Vec<ByteSpan>,
    ) -> (r: bool)
        ensures
            r == joins_multicast(
                target,
                self@.shards,
                deep(items@),
                tile,
                order,
                source@,
                destination@,
            ),
    {
        broadcast use group_deep;

        if items.len() < 2 || !are_word_aligned(source) || !are_word_aligned(destination) {
            return false;
        }
        let ghost model = deep(items@);
        let mut alike = false;
        let mut i: usize = 0;
        while i < items.len()
            invariant
                i <= items@.len(),
                alike <==> exists|k: int|
                    0 <= k < i && travels_alike(
                        target,
                        self@.shards,
                        (#[trigger] model[k]).1,
                        order,
                        destination@,
                    ),
                forall|k: int|
                    0 <= k < i ==> is_remote(self@.shards, (#[trigger] model[k]).1, tile),
            decreases items@.len() - i,
        {
            assert(model[i as int] == items@[i as int]@);
            let view = &items[i].1;
            if view.shard.0 as usize >= self.shards.len() {
                assert(!is_remote(self@.shards, model[i as int].1, tile));
                return false;
            }
            if self.shards[view.shard.0 as usize].tile == tile {
                assert(!is_remote(self@.shards, model[i as int].1, tile));
                return false;
            }
            match self.spans(target, view, order) {
                Ok(spans) => {
                    if are_same_sizes(&spans, destination) {
                        alike = true;
                    }
                },
                Err(_) => {},
            }
            i += 1;
        }
        alike
    }

    /// Settles one local copy.
    fn settle_loopback<M: BlockTarget>(
        &self,
        target: &M,
        loopback: Loopback,
        batch: &mut MaterializationBatch,
    ) -> (r: ExpansionResult<()>)
        requires
            well_filed(old(batch)@),
        ensures
            well_filed(final(batch)@),
            match r {
                Ok(_) => settle_loopback(target, self@.shards, old(batch)@, loopback@) == Ok::<
                    BatchModel,
                    ExpansionError,
                >(final(batch)@),
                Err(e) => settle_loopback(target, self@.shards, old(batch)@, loopback@) == Err::<
                    BatchModel,
                    ExpansionError,
                >(e),
            },
    {
        broadcast use group_deep;

        let Loopback { source, destination, order } = loopback;
        let a = self.spans(target, &source, order)?;
        let b = self.spans(target, &destination, order)?;
        let tile: u16 = self.block(source.shard)?.tile;
        let transfers = match order {
            CopyOrder::Semantic => &batch.semantic,
            CopyOrder::Physical => &batch.physical,
            CopyOrder::Panels => &batch.panels,
        };
        let joins = match position_of(transfers, &source) {
            Some(at) => {
                assert(transfers@[at as int] == transfers.entries@[at as int]@);
                self.may_join(target, &transfers.entries[at].items, tile, order, &a, &b)
            },
            None => false,
        };
        if joins {
            batch.add_transfer(order, source, destination);
            Ok(())
        } else {
            self.append_span_copies(target, &source, &destination, tile, &mut batch.after, order)
        }
    }

    /// Schedules a batch.
    pub fn append_materialization<M: BlockTarget>(
        &mut self,
        target: &M,
        batch: MaterializationBatch,
        provenance: WorkProvenance,
        relay: bool,
    ) -> (r: ExpansionResult<()>)
        requires
            well_filed(batch@),
        ensures
            built(
                r,
                final(self)@,
                append_materialization(target, old(self)@, batch@, provenance, relay),
            ),
    {
        broadcast use group_deep;

        let ghost given = batch@;
        let ghost list = batch.loopbacks@;
        let mut batch = batch;
        let mut rest: Vec<Loopback> = Vec::new();
        let mut waiting: Vec<Loopback> = Vec::new();
        std::mem::swap(&mut waiting, &mut batch.loopbacks);
        while waiting.len() > 0
            invariant
                waiting@.len() + rest@.len() == list.len(),
                waiting@ == list.take(waiting@.len() as int),
                forall|k: int| 0 <= k < rest@.len() ==> rest@[k] == list[list.len() - 1 - k],
            decreases waiting@.len(),
        {
            let ghost before = waiting@;
            match waiting.pop() {
                Some(loopback) => {
                    assert(loopback == before.last());
                    assert(waiting@ =~= list.take(waiting@.len() as int));
                    rest.push(loopback);
                },
                None => {},
            }
        }
        let ghost start = batch@;
        let ghost model = deep(list);
        let ghost mut k: int = 0;
        proof {
            lemma_settling_ignores_the_list(target, self@.shards, given, start, model, 0);
        }
        while rest.len() > 0
            invariant
                0 <= k <= list.len(),
                well_filed(batch@),
                rest@.len() == list.len() - k,
                forall|j: int| 0 <= j < rest@.len() ==> rest@[j] == list[list.len() - 1 - j],
                settle_loopbacks_from(target, self@.shards, start, model, 0)
                    == settle_loopbacks_from(target, self@.shards, batch@, model, k),
            decreases rest@.len(),
        {
            match rest.pop() {
                Some(loopback) => {
                    assert(model[k] == loopback@);
                    self.settle_loopback(target, loopback, &mut batch)?;
                    proof {
                        k = k + 1;
                    }
                },
                None => {},
            }
        }
        self.append_copies(&batch.before)?;
        let mut exchanges: Vec<BlockExchange> = Vec::new();
        exchanges_in(&batch.semantic, CopyOrder::Semantic, &mut exchanges);
        exchanges_in(&batch.physical, CopyOrder::Physical, &mut exchanges);
        exchanges_in(&batch.panels, CopyOrder::Panels, &mut exchanges);
        assert(deep(exchanges@) =~= batch_exchanges(batch@));
        if relay {
            let more = self.gather(target, &exchanges)?;
            self.append_exchange_phase(more, provenance)?;
        } else {
            self.append_exchange_phase(exchanges, provenance)?;
        }
        self.append_copies(&batch.after)?;
        self.append_kernels(batch.kernels)
    }
}

/// Two batches that differ only in the local copies still to settle.
pub open spec fn same_but_loopbacks(a: BatchModel, b: BatchModel) -> bool {
    b == (BatchModel { loopbacks: b.loopbacks, ..a })
}

/// Settling depends on the list that is settled, not on the one in the batch.
proof fn lemma_settling_ignores_the_list<M: BlockTarget>(
    target: &M,
    shards: Seq<ShardModel>,
    a: BatchModel,
    b: BatchModel,
    loopbacks: Seq<LoopbackModel>,
    i: int,
)
    requires
        same_but_loopbacks(a, b),
    ensures
        match (
            settle_loopbacks_from(target, shards, a, loopbacks, i),
            settle_loopbacks_from(target, shards, b, loopbacks, i),
        ) {
            (Ok(x), Ok(y)) => same_but_loopbacks(x, y),
            (Err(x), Err(y)) => x == y,
            _ => false,
        },
    decreases loopbacks.len() - i,
{
    if i < loopbacks.len() {
        let x = settle_loopback(target, shards, a, loopbacks[i]);
        let y = settle_loopback(target, shards, b, loopbacks[i]);
        if x is Ok && y is Ok {
            lemma_settling_ignores_the_list(target, shards, x->Ok_0, y->Ok_0, loopbacks, i + 1);
        }
    }
}

} // verus!
