//! What happens to mapped views: each is carried over to its destination, by an
//! exchange between tiles and by copies inside one.

use crate::conversion::{
    append_batch, copy_order, empty_batch, filed_mappings, gather_intersections,
    lower_conversion, lower_mapped_views, move_from, packing_run, placement, populate, populate_from, provenance_of,
    retiling_from, trimmed, unstage, BatchModel, Placement,
};
use crate::copies::{on_tile, view_copies};
use crate::coverage::{
    carries_in_place, fills, lemma_retiling_carries_in_place, lemma_retiling_fills_outputs,
};
use crate::extents::covers;
use crate::fallback::{
    cast_from, cast_run, cast_staging, converted_formats, default_strategy, needs_cast,
    push_cast_staging_from,
};
use crate::kernels::{append_kernel, append_kernels_from};
use crate::lookup::value_shards;
use crate::low::{
    ExchangeModel, ExchangeOrder, LocalCopy, LocalCopyId, KernelRunId, LowLoweringError, LowShardId,
    RunModel, ShardModel, TileWork, ViewModel, WorkProvenance,
};
use crate::mid::{ConversionStrategy, MidOperation};
use crate::order::{lemma_slot_bounds, lemma_view_key_injective, slot_from, view_key, GroupModel};
use crate::phase::{
    add_transfer, append_ordered_phase, destinations_of, exchanges, joins_last_phase,
    lemma_sorted_views, sorted_views,
};
use crate::state::{
    append_copies_from, append_local_copy, push_shard, shard_of, unpadded, StateModel,
    TransfersModel,
};
use crate::target::Target;
use crate::tensor::Precision;
use vstd::prelude::*;

verus! {

// ---------------------------------------------------------------- sequences

/// A sequence begins with another.
pub open spec fn begins<A>(whole: Seq<A>, part: Seq<A>) -> bool {
    &&& part.len() <= whole.len()
    &&& forall|i: int| 0 <= i < part.len() ==> #[trigger] whole[i] == part[i]
}

/// `part` stands in `whole` from position `at` on.
pub open spec fn stands_at<A>(whole: Seq<A>, part: Seq<A>, at: int) -> bool {
    &&& 0 <= at
    &&& at + part.len() <= whole.len()
    &&& forall|i: int| 0 <= i < part.len() ==> whole[at + i] == #[trigger] part[i]
}

/// `part` stands in `whole` without a gap.
pub open spec fn stands_in<A>(whole: Seq<A>, part: Seq<A>) -> bool {
    exists|at: int| #[trigger] stands_at(whole, part, at)
}

pub(crate) proof fn lemma_still_stands<A>(before: Seq<A>, after: Seq<A>, part: Seq<A>)
    requires
        begins(after, before),
        stands_in(before, part),
    ensures
        stands_in(after, part),
{
    let at = choose|at: int| #[trigger] stands_at(before, part, at);
    assert forall|i: int| 0 <= i < part.len() implies after[at + i] == #[trigger] part[i] by {
        assert(after[at + i] == before[at + i]);
    }
    assert(stands_at(after, part, at));
}

// ---------------------------------------------------------------- batches

/// A batch sends one view to another.
pub open spec fn sends(
    transfers: TransfersModel,
    source: ViewModel,
    destination: ViewModel,
) -> bool {
    exists|g: int, i: int|
        0 <= g < transfers.len() && 0 <= i < transfers[g].items.len()
            && #[trigger] transfers[g].items[i] == (source, destination)
}

/// The transfers of a group have one source.
pub open spec fn sources_agree(transfers: TransfersModel) -> bool {
    forall|g: int, i: int|
        0 <= g < transfers.len() && 0 <= i < transfers[g].items.len() ==> transfers[g].key
            == view_key((#[trigger] transfers[g].items[i]).0)
}

/// A batch still does what it did before.
pub open spec fn grows(before: BatchModel, after: BatchModel) -> bool {
    &&& forall|source: ViewModel, destination: ViewModel|
        sends(before.transfers, source, destination) ==> #[trigger] sends(
            after.transfers,
            source,
            destination,
        )
    &&& begins(after.before, before.before)
    &&& begins(after.after, before.after)
    &&& begins(after.kernels, before.kernels)
}

/// Transfers are filed by source, and kernels are single runs.
pub open spec fn in_order(batch: BatchModel) -> bool {
    &&& sources_agree(batch.transfers)
    &&& forall|i: int|
        0 <= i < batch.kernels.len() ==> !((#[trigger] batch.kernels[i]).1.metadata.kernel is Gemm)
}

/// A batch moves a view: by copies inside a tile, and else by a transfer.
pub open spec fn moves<M: Target>(
    target: &M,
    shards: Seq<ShardModel>,
    batch: BatchModel,
    source: ViewModel,
    destination: ViewModel,
    staged: bool,
    logical: bool,
) -> bool {
    &&& source.shard.0 < shards.len()
    &&& destination.shard.0 < shards.len()
    &&& if shards[source.shard.0 as int].tile == shards[destination.shard.0 as int].tile {
        match view_copies(target, shards, source, destination, copy_order(logical)) {
            Ok(copies) => stands_in(
                if staged {
                    batch.before
                } else {
                    batch.after
                },
                on_tile(copies, shards[destination.shard.0 as int].tile),
            ),
            Err(_) => false,
        }
    } else {
        sends(batch.transfers, source, destination)
    }
}

/// A batch carries staged values over to their destination.
pub open spec fn unstages<M: Target>(
    target: &M,
    shards: Seq<ShardModel>,
    batch: BatchModel,
    staging: LowShardId,
    destination: LowShardId,
    provenance: WorkProvenance,
) -> bool {
    &&& staging.0 < shards.len()
    &&& destination.0 < shards.len()
    &&& {
        let from = shards[staging.0 as int];
        let to = shards[destination.0 as int];
        ||| batch.kernels.contains(
            (to.tile, packing_run(staging, from, destination, to, provenance)),
        )
        ||| match view_copies(
            target,
            shards,
            ViewModel { shard: staging, extents: from.extents },
            ViewModel { shard: destination, extents: unpadded(to.extents) },
            ExchangeOrder::Semantic,
        ) {
            Ok(copies) => stands_in(batch.after, on_tile(copies, to.tile)),
            Err(_) => false,
        }
    }
}

/// A batch carries a mapping through staging storage.
pub open spec fn carries_through<M: Target>(
    target: &M,
    shards: Seq<ShardModel>,
    batch: BatchModel,
    mapping: (ViewModel, ViewModel),
    staging: LowShardId,
    logical: bool,
    provenance: WorkProvenance,
) -> bool {
    &&& moves(
        target,
        shards,
        batch,
        trimmed(mapping.0, mapping.0.shard),
        trimmed(mapping.1, staging),
        true,
        logical,
    )
    &&& unstages(target, shards, batch, staging, mapping.1.shard, provenance)
}

/// A batch carries a mapping, straight or through staging storage.
pub open spec fn carries<M: Target>(
    target: &M,
    shards: Seq<ShardModel>,
    batch: BatchModel,
    mapping: (ViewModel, ViewModel),
    logical: bool,
    provenance: WorkProvenance,
) -> bool {
    ||| moves(target, shards, batch, mapping.0, mapping.1, false, logical)
    ||| exists|staging: LowShardId| #[trigger]
        carries_through(target, shards, batch, mapping, staging, logical, provenance)
}

proof fn lemma_copies_of_known_shards<M: Target>(
    target: &M,
    before: Seq<ShardModel>,
    after: Seq<ShardModel>,
    source: ViewModel,
    destination: ViewModel,
    order: ExchangeOrder,
)
    requires
        begins(after, before),
        source.shard.0 < before.len(),
        destination.shard.0 < before.len(),
    ensures
        view_copies(target, after, source, destination, order) == view_copies(
            target,
            before,
            source,
            destination,
            order,
        ),
{
    assert(after[source.shard.0 as int] == before[source.shard.0 as int]);
    assert(after[destination.shard.0 as int] == before[destination.shard.0 as int]);
}

proof fn lemma_still_moves<M: Target>(
    target: &M,
    shards: Seq<ShardModel>,
    more: Seq<ShardModel>,
    before: BatchModel,
    after: BatchModel,
    source: ViewModel,
    destination: ViewModel,
    staged: bool,
    logical: bool,
)
    requires
        begins(more, shards),
        grows(before, after),
        moves(target, shards, before, source, destination, staged, logical),
    ensures
        moves(target, more, after, source, destination, staged, logical),
{
    assert(more[source.shard.0 as int] == shards[source.shard.0 as int]);
    assert(more[destination.shard.0 as int] == shards[destination.shard.0 as int]);
    if shards[source.shard.0 as int].tile == shards[destination.shard.0 as int].tile {
        lemma_copies_of_known_shards(
            target,
            shards,
            more,
            source,
            destination,
            copy_order(logical),
        );
        let copies = view_copies(target, shards, source, destination, copy_order(logical))->Ok_0;
        let part = on_tile(copies, shards[destination.shard.0 as int].tile);
        if staged {
            lemma_still_stands(before.before, after.before, part);
        } else {
            lemma_still_stands(before.after, after.after, part);
        }
    }
}

proof fn lemma_still_unstages<M: Target>(
    target: &M,
    shards: Seq<ShardModel>,
    more: Seq<ShardModel>,
    before: BatchModel,
    after: BatchModel,
    staging: LowShardId,
    destination: LowShardId,
    provenance: WorkProvenance,
)
    requires
        begins(more, shards),
        grows(before, after),
        unstages(target, shards, before, staging, destination, provenance),
    ensures
        unstages(target, more, after, staging, destination, provenance),
{
    let from = shards[staging.0 as int];
    let to = shards[destination.0 as int];
    assert(more[staging.0 as int] == from);
    assert(more[destination.0 as int] == to);
    let run = (to.tile, packing_run(staging, from, destination, to, provenance));
    if before.kernels.contains(run) {
        let i = choose|i: int| 0 <= i < before.kernels.len() && before.kernels[i] == run;
        assert(after.kernels[i] == run);
    } else {
        let source = ViewModel { shard: staging, extents: from.extents };
        let into = ViewModel { shard: destination, extents: unpadded(to.extents) };
        lemma_copies_of_known_shards(
            target,
            shards,
            more,
            source,
            into,
            ExchangeOrder::Semantic,
        );
        let copies = view_copies(target, shards, source, into, ExchangeOrder::Semantic)->Ok_0;
        lemma_still_stands(before.after, after.after, on_tile(copies, to.tile));
    }
}

proof fn lemma_still_carries<M: Target>(
    target: &M,
    shards: Seq<ShardModel>,
    more: Seq<ShardModel>,
    before: BatchModel,
    after: BatchModel,
    mapping: (ViewModel, ViewModel),
    logical: bool,
    provenance: WorkProvenance,
)
    requires
        begins(more, shards),
        grows(before, after),
        carries(target, shards, before, mapping, logical, provenance),
    ensures
        carries(target, more, after, mapping, logical, provenance),
{
    if moves(target, shards, before, mapping.0, mapping.1, false, logical) {
        lemma_still_moves(
            target,
            shards,
            more,
            before,
            after,
            mapping.0,
            mapping.1,
            false,
            logical,
        );
    } else {
        let staging = choose|staging: LowShardId| #[trigger]
            carries_through(target, shards, before, mapping, staging, logical, provenance);
        lemma_still_moves(
            target,
            shards,
            more,
            before,
            after,
            trimmed(mapping.0, mapping.0.shard),
            trimmed(mapping.1, staging),
            true,
            logical,
        );
        lemma_still_unstages(
            target,
            shards,
            more,
            before,
            after,
            staging,
            mapping.1.shard,
            provenance,
        );
        assert(carries_through(target, more, after, mapping, staging, logical, provenance));
    }
}

pub(crate) proof fn lemma_added_transfer(
    transfers: TransfersModel,
    source: ViewModel,
    destination: ViewModel,
)
    requires
        sources_agree(transfers),
    ensures
        sources_agree(add_transfer(transfers, source, destination)),
        sends(add_transfer(transfers, source, destination), source, destination),
        forall|a: ViewModel, b: ViewModel|
            sends(transfers, a, b) ==> #[trigger] sends(
                add_transfer(transfers, source, destination),
                a,
                b,
            ),
{
    let key = view_key(source);
    let after = add_transfer(transfers, source, destination);
    let slot = slot_from(transfers, key, 0);
    lemma_slot_bounds(transfers, key);
    let joined = slot < transfers.len() && transfers[slot].key == key;
    if joined {
        let last = transfers[slot].items.len() as int;
        assert(after[slot].items[last] == (source, destination));
    } else {
        assert(after[slot].items[0] == (source, destination));
    }
    assert forall|g: int, i: int|
        0 <= g < after.len() && 0 <= i < after[g].items.len() implies after[g].key == view_key(
        (#[trigger] after[g].items[i]).0,
    ) by {
        if g != slot {
            let origin = if joined || g < slot {
                g
            } else {
                g - 1
            };
            assert(after[g] == transfers[origin]);
            assert(transfers[origin].items[i] == after[g].items[i]);
        } else if joined && i < transfers[slot].items.len() {
            assert(after[g].items[i] == transfers[slot].items[i]);
        } else {
            assert(after[g].items[i] == (source, destination));
        }
    }
    assert forall|a: ViewModel, b: ViewModel| sends(transfers, a, b) implies #[trigger] sends(
        after,
        a,
        b,
    ) by {
        let (g, i) = choose|g: int, i: int|
            0 <= g < transfers.len() && 0 <= i < transfers[g].items.len()
                && #[trigger] transfers[g].items[i] == (a, b);
        let moved = if joined || g < slot {
            g
        } else {
            g + 1
        };
        assert(after[moved].items[i] == (a, b));
    }
}

/// The views that a mapping moves between, into `staging` where there is one.
pub open spec fn moved_views(
    mapping: (ViewModel, ViewModel),
    staging: Option<LowShardId>,
) -> (ViewModel, ViewModel) {
    match staging {
        Some(id) => (trimmed(mapping.0, mapping.0.shard), trimmed(mapping.1, id)),
        None => mapping,
    }
}

proof fn lemma_move_from<M: Target>(
    target: &M,
    shards: Seq<ShardModel>,
    mappings: Seq<(ViewModel, ViewModel)>,
    staging: Option<LowShardId>,
    logical: bool,
    k: int,
    batch: BatchModel,
)
    requires
        0 <= k,
        in_order(batch),
    ensures
        match move_from(target, shards, mappings, staging, logical, k, batch) {
            Err(_) => true,
            Ok(after) => {
                &&& grows(batch, after)
                &&& in_order(after)
                &&& forall|j: int|
                    k <= j < mappings.len() ==> moves(
                        target,
                        shards,
                        after,
                        moved_views(#[trigger] mappings[j], staging).0,
                        moved_views(mappings[j], staging).1,
                        staging is Some,
                        logical,
                    )
            },
        },
    decreases mappings.len() - k,
{
    if k < mappings.len() {
        let (source, destination) = moved_views(mappings[k], staging);
        if source.shard.0 < shards.len() && destination.shard.0 < shards.len() {
            let from = shards[source.shard.0 as int];
            let to = shards[destination.shard.0 as int];
            let given = if staging is Some {
                batch.before
            } else {
                batch.after
            };
            let step = if from.tile == to.tile {
                match view_copies(target, shards, source, destination, copy_order(logical)) {
                    Ok(copies) => {
                        let list = given + on_tile(copies, to.tile);
                        if staging is Some {
                            Some(BatchModel { before: list, ..batch })
                        } else {
                            Some(BatchModel { after: list, ..batch })
                        }
                    },
                    Err(_) => None,
                }
            } else {
                Some(
                    BatchModel {
                        transfers: add_transfer(batch.transfers, source, destination),
                        ..batch
                    },
                )
            };
            if let Some(next) = step {
                if from.tile == to.tile {
                    let copies = view_copies(
                        target,
                        shards,
                        source,
                        destination,
                        copy_order(logical),
                    )->Ok_0;
                    let part = on_tile(copies, to.tile);
                    assert(stands_at(given + part, part, given.len() as int));
                } else {
                    lemma_added_transfer(batch.transfers, source, destination);
                }
                assert(grows(batch, next));
                assert(moves(
                    target,
                    shards,
                    next,
                    source,
                    destination,
                    staging is Some,
                    logical,
                ));
                lemma_move_from(target, shards, mappings, staging, logical, k + 1, next);
                if let Ok(after) = move_from(
                    target,
                    shards,
                    mappings,
                    staging,
                    logical,
                    k,
                    batch,
                ) {
                    lemma_grows_on(batch, next, after);
                    lemma_still_moves(
                        target,
                        shards,
                        shards,
                        next,
                        after,
                        source,
                        destination,
                        staging is Some,
                        logical,
                    );
                }
            }
        }
    }
}

proof fn lemma_grows_on(a: BatchModel, b: BatchModel, c: BatchModel)
    requires
        grows(a, b),
        grows(b, c),
    ensures
        grows(a, c),
{
    assert forall|source: ViewModel, destination: ViewModel|
        sends(a.transfers, source, destination) implies #[trigger] sends(
        c.transfers,
        source,
        destination,
    ) by {
        assert(sends(b.transfers, source, destination));
    }
    assert forall|i: int| 0 <= i < a.before.len() implies #[trigger] c.before[i]
        == a.before[i] by {
        assert(b.before[i] == a.before[i]);
    }
    assert forall|i: int| 0 <= i < a.after.len() implies #[trigger] c.after[i] == a.after[i] by {
        assert(b.after[i] == a.after[i]);
    }
    assert forall|i: int| 0 <= i < a.kernels.len() implies #[trigger] c.kernels[i]
        == a.kernels[i] by {
        assert(b.kernels[i] == a.kernels[i]);
    }
}

proof fn lemma_unstage<M: Target>(
    target: &M,
    shards: Seq<ShardModel>,
    staging: LowShardId,
    destination: LowShardId,
    provenance: WorkProvenance,
    batch: BatchModel,
)
    requires
        in_order(batch),
    ensures
        match unstage(target, shards, staging, destination, provenance, batch) {
            Err(_) => true,
            Ok(after) => {
                &&& grows(batch, after)
                &&& in_order(after)
                &&& unstages(target, shards, after, staging, destination, provenance)
            },
        },
{
    if let Ok(after) = unstage(target, shards, staging, destination, provenance, batch) {
        let from = shards[staging.0 as int];
        let to = shards[destination.0 as int];
        if after.kernels.len() > batch.kernels.len() {
            let run = (to.tile, packing_run(staging, from, destination, to, provenance));
            assert(after.kernels[batch.kernels.len() as int] == run);
        } else {
            let copies = view_copies(
                target,
                shards,
                ViewModel { shard: staging, extents: from.extents },
                ViewModel { shard: destination, extents: unpadded(to.extents) },
                ExchangeOrder::Semantic,
            )->Ok_0;
            let part = on_tile(copies, to.tile);
            assert(stands_at(after.after, part, batch.after.len() as int));
        }
    }
}

/// The mappings have one destination.
pub open spec fn share_destination(mappings: Seq<(ViewModel, ViewModel)>) -> bool {
    &&& mappings.len() > 0
    &&& forall|i: int|
        0 <= i < mappings.len() ==> (#[trigger] mappings[i]).1.shard == mappings[0].1.shard
}

proof fn lemma_populate<M: Target>(
    target: &M,
    s: StateModel,
    mappings: Seq<(ViewModel, ViewModel)>,
    logical: bool,
    provenance: WorkProvenance,
    batch: BatchModel,
)
    requires
        share_destination(mappings),
        in_order(batch),
    ensures
        match populate(target, s, mappings, logical, provenance, batch) {
            Err(_) => true,
            Ok((t, after)) => {
                &&& begins(t.shards, s.shards)
                &&& grows(batch, after)
                &&& in_order(after)
                &&& forall|j: int|
                    0 <= j < mappings.len() ==> carries(
                        target,
                        t.shards,
                        after,
                        #[trigger] mappings[j],
                        logical,
                        provenance,
                    )
            },
        },
{
    let destination = mappings[0].1.shard;
    if let Ok((t, after)) = populate(target, s, mappings, logical, provenance, batch) {
        match placement(target, s.shards, destination, mappings, logical) {
            Err(_) => {},
            Ok(Placement::Direct) => {
                lemma_move_from(target, s.shards, mappings, None, logical, 0, batch);
            },
            Ok(Placement::Cleared) => {
                assert(t.shards == s.shards);
                lemma_move_from(target, t.shards, mappings, None, logical, 0, batch);
            },
            Ok(Placement::Staged) => {
                let staging = LowShardId(s.shards.len() as u32);
                assert(begins(t.shards, s.shards));
                lemma_move_from(target, t.shards, mappings, Some(staging), logical, 0, batch);
                let moved = move_from(
                    target,
                    t.shards,
                    mappings,
                    Some(staging),
                    logical,
                    0,
                    batch,
                )->Ok_0;
                lemma_unstage(target, t.shards, staging, destination, provenance, moved);
                lemma_grows_on(batch, moved, after);
                assert forall|j: int| 0 <= j < mappings.len() implies carries(
                    target,
                    t.shards,
                    after,
                    #[trigger] mappings[j],
                    logical,
                    provenance,
                ) by {
                    let (source, into) = moved_views(mappings[j], Some(staging));
                    lemma_still_moves(
                        target,
                        t.shards,
                        t.shards,
                        moved,
                        after,
                        source,
                        into,
                        true,
                        logical,
                    );
                    assert(carries_through(
                        target,
                        t.shards,
                        after,
                        mappings[j],
                        staging,
                        logical,
                        provenance,
                    ));
                }
            },
        }
    }
}

/// A mapping is in one of the groups from `k` on.
pub open spec fn is_filed(
    groups: Seq<GroupModel<(ViewModel, ViewModel)>>,
    k: int,
    mapping: (ViewModel, ViewModel),
) -> bool {
    exists|g: int, i: int|
        k <= g < groups.len() && 0 <= i < groups[g].items.len()
            && #[trigger] groups[g].items[i] == mapping
}

proof fn lemma_populate_from<M: Target>(
    target: &M,
    s: StateModel,
    groups: Seq<GroupModel<(ViewModel, ViewModel)>>,
    logical: bool,
    provenance: WorkProvenance,
    k: int,
    batch: BatchModel,
)
    requires
        0 <= k,
        forall|g: int| 0 <= g < groups.len() ==> share_destination((#[trigger] groups[g]).items),
        in_order(batch),
    ensures
        match populate_from(target, s, groups, logical, provenance, k, batch) {
            Err(_) => true,
            Ok((t, after)) => {
                &&& begins(t.shards, s.shards)
                &&& grows(batch, after)
                &&& in_order(after)
                &&& forall|mapping: (ViewModel, ViewModel)|
                    is_filed(groups, k, mapping) ==> #[trigger] carries(
                        target,
                        t.shards,
                        after,
                        mapping,
                        logical,
                        provenance,
                    )
            },
        },
    decreases groups.len() - k,
{
    if k < groups.len() {
        let items = groups[k].items;
        lemma_populate(target, s, items, logical, provenance, batch);
        if let Ok((next, more)) = populate(target, s, items, logical, provenance, batch) {
            lemma_populate_from(target, next, groups, logical, provenance, k + 1, more);
            if let Ok((t, after)) = populate_from(
                target,
                s,
                groups,
                logical,
                provenance,
                k,
                batch,
            ) {
                lemma_grows_on(batch, more, after);
                assert forall|i: int| 0 <= i < s.shards.len() implies #[trigger] t.shards[i]
                    == s.shards[i] by {
                    assert(next.shards[i] == s.shards[i]);
                }
                assert forall|mapping: (ViewModel, ViewModel)|
                    is_filed(groups, k, mapping) implies #[trigger] carries(
                    target,
                    t.shards,
                    after,
                    mapping,
                    logical,
                    provenance,
                ) by {
                    let (g, i) = choose|g: int, i: int|
                        k <= g < groups.len() && 0 <= i < groups[g].items.len()
                            && #[trigger] groups[g].items[i] == mapping;
                    if g == k {
                        assert(carries(
                            target,
                            next.shards,
                            more,
                            items[i],
                            logical,
                            provenance,
                        ));
                        lemma_still_carries(
                            target,
                            next.shards,
                            t.shards,
                            more,
                            after,
                            mapping,
                            logical,
                            provenance,
                        );
                    } else {
                        assert(groups[g].items[i] == mapping);
                        assert(is_filed(groups, k + 1, mapping));
                    }
                }
            }
        }
    }
}

proof fn lemma_filed_mappings(mappings: Seq<(ViewModel, ViewModel)>, count: int)
    requires
        0 <= count <= mappings.len(),
    ensures
        forall|g: int|
            0 <= g < filed_mappings(mappings, count).len() ==> share_destination(
                (#[trigger] filed_mappings(mappings, count)[g]).items,
            ) && filed_mappings(mappings, count)[g].key == seq![
                filed_mappings(mappings, count)[g].items[0].1.shard.0,
            ],
        forall|j: int|
            0 <= j < count ==> is_filed(
                filed_mappings(mappings, count),
                0,
                #[trigger] mappings[j],
            ),
    decreases count,
{
    if count > 0 {
        lemma_filed_mappings(mappings, count - 1);
        let before = filed_mappings(mappings, count - 1);
        let after = filed_mappings(mappings, count);
        let mapping = mappings[count - 1];
        let key = seq![mapping.1.shard.0];
        let slot = slot_from(before, key, 0);
        lemma_slot_bounds(before, key);
        let joined = slot < before.len() && before[slot].key == key;
        if joined {
            assert(before[slot].key[0] == mapping.1.shard.0);
            assert(before[slot].items[0].1.shard == mapping.1.shard);
            assert(after[slot].items[0] == before[slot].items[0]);
            assert(after[slot].items[before[slot].items.len() as int] == mapping);
        } else {
            assert(after[slot].items[0] == mapping);
        }
        assert forall|g: int| 0 <= g < after.len() implies share_destination(
            (#[trigger] after[g]).items,
        ) && after[g].key == seq![after[g].items[0].1.shard.0] by {
            if g != slot {
                let origin = if joined || g < slot {
                    g
                } else {
                    g - 1
                };
                assert(after[g] == before[origin]);
                assert(share_destination(before[origin].items));
            } else if joined {
                assert(share_destination(before[slot].items));
                assert forall|i: int| 0 <= i < after[g].items.len() implies (
                #[trigger] after[g].items[i]).1.shard == after[g].items[0].1.shard by {
                    if i < before[slot].items.len() {
                        assert(after[g].items[i] == before[slot].items[i]);
                    }
                }
            }
        }
        assert forall|j: int| 0 <= j < count implies is_filed(
            after,
            0,
            #[trigger] mappings[j],
        ) by {
            if j < count - 1 {
                assert(is_filed(before, 0, mappings[j]));
                let (g, i) = choose|g: int, i: int|
                    0 <= g < before.len() && 0 <= i < before[g].items.len()
                        && #[trigger] before[g].items[i] == mappings[j];
                let moved = if joined || g < slot {
                    g
                } else {
                    g + 1
                };
                assert(after[moved].items[i] == mappings[j]);
            }
        }
    }
}

// ---------------------------------------------------------------- schedules

/// A schedule still holds what it held before, with the same shards.
pub open spec fn holds_on(s: StateModel, t: StateModel) -> bool {
    &&& t.shards == s.shards
    &&& begins(t.local_copies, s.local_copies)
    &&& begins(t.kernel_runs, s.kernel_runs)
    &&& s.phases.len() <= t.phases.len()
    &&& forall|p: int|
        0 <= p < s.phases.len() ==> begins(
            (#[trigger] t.phases[p]).transfers,
            s.phases[p].transfers,
        )
    &&& t.tiles.len() == s.tiles.len()
    &&& forall|i: int|
        0 <= i < s.tiles.len() ==> begins((#[trigger] t.tiles[i]).work, s.tiles[i].work)
}

/// The schedule of a tile has an entry.
pub open spec fn schedules(s: StateModel, tile: u16, work: TileWork) -> bool {
    tile < s.tiles.len() && s.tiles[tile as int].work.contains(work)
}

/// The copies stand in the schedule from position `at` on, and the tile makes
/// them.
pub open spec fn copies_at(s: StateModel, copies: Seq<LocalCopy>, tile: u16, at: int) -> bool {
    &&& stands_at(s.local_copies, copies, at)
    &&& forall|i: int|
        0 <= i < copies.len() ==> schedules(
            s,
            tile,
            TileWork::LocalCopy(LocalCopyId((#[trigger] (at + i)) as u32)),
        )
}

/// A tile makes the copies.
pub open spec fn makes_copies(s: StateModel, copies: Seq<LocalCopy>, tile: u16) -> bool {
    exists|at: int| #[trigger] copies_at(s, copies, tile, at)
}

/// A tile makes the run.
pub open spec fn makes_run(s: StateModel, run: RunModel, tile: u16) -> bool {
    exists|k: int|
        0 <= k < s.kernel_runs.len() && #[trigger] s.kernel_runs[k] == run && schedules(
            s,
            tile,
            TileWork::Kernel(KernelRunId(k as u32)),
        )
}

/// An exchange carries one view to another.
pub open spec fn exchanges_views(
    exchange: ExchangeModel,
    source: ViewModel,
    destination: ViewModel,
) -> bool {
    exchange.source == source && exchange.destinations.contains(destination)
}

/// Some phase carries one view to another.
pub open spec fn makes_exchange(
    s: StateModel,
    source: ViewModel,
    destination: ViewModel,
) -> bool {
    exists|p: int, x: int|
        0 <= p < s.phases.len() && 0 <= x < s.phases[p].transfers.len() && exchanges_views(
            #[trigger] s.phases[p].transfers[x],
            source,
            destination,
        )
}

/// A schedule moves a view: by copies inside a tile, and else by an exchange.
pub open spec fn delivers<M: Target>(
    target: &M,
    s: StateModel,
    source: ViewModel,
    destination: ViewModel,
    logical: bool,
) -> bool {
    &&& source.shard.0 < s.shards.len()
    &&& destination.shard.0 < s.shards.len()
    &&& if s.shards[source.shard.0 as int].tile == s.shards[destination.shard.0 as int].tile {
        match view_copies(target, s.shards, source, destination, copy_order(logical)) {
            Ok(copies) => makes_copies(
                s,
                copies,
                s.shards[destination.shard.0 as int].tile,
            ),
            Err(_) => false,
        }
    } else {
        makes_exchange(s, source, destination)
    }
}

/// A schedule packs staged values into their destination, by a kernel or by
/// copies.
pub open spec fn packs<M: Target>(
    target: &M,
    s: StateModel,
    staging: LowShardId,
    destination: LowShardId,
    provenance: WorkProvenance,
) -> bool {
    &&& staging.0 < s.shards.len()
    &&& destination.0 < s.shards.len()
    &&& {
        let from = s.shards[staging.0 as int];
        let to = s.shards[destination.0 as int];
        ||| makes_run(s, packing_run(staging, from, destination, to, provenance), to.tile)
        ||| match view_copies(
            target,
            s.shards,
            ViewModel { shard: staging, extents: from.extents },
            ViewModel { shard: destination, extents: unpadded(to.extents) },
            ExchangeOrder::Semantic,
        ) {
            Ok(copies) => makes_copies(s, copies, to.tile),
            Err(_) => false,
        }
    }
}

/// A schedule carries a mapping through staging storage.
pub open spec fn delivers_through<M: Target>(
    target: &M,
    s: StateModel,
    mapping: (ViewModel, ViewModel),
    staging: LowShardId,
    logical: bool,
    provenance: WorkProvenance,
) -> bool {
    &&& delivers(
        target,
        s,
        trimmed(mapping.0, mapping.0.shard),
        trimmed(mapping.1, staging),
        logical,
    )
    &&& packs(target, s, staging, mapping.1.shard, provenance)
}

/// A schedule carries a mapping, straight or through staging storage.
pub open spec fn is_delivered<M: Target>(
    target: &M,
    s: StateModel,
    mapping: (ViewModel, ViewModel),
    logical: bool,
    provenance: WorkProvenance,
) -> bool {
    ||| delivers(target, s, mapping.0, mapping.1, logical)
    ||| exists|staging: LowShardId| #[trigger]
        delivers_through(target, s, mapping, staging, logical, provenance)
}

pub(crate) proof fn lemma_holds_on(a: StateModel, b: StateModel, c: StateModel)
    requires
        holds_on(a, b),
        holds_on(b, c),
    ensures
        holds_on(a, c),
{
    assert forall|i: int| 0 <= i < a.local_copies.len() implies #[trigger] c.local_copies[i]
        == a.local_copies[i] by {
        assert(b.local_copies[i] == a.local_copies[i]);
    }
    assert forall|i: int| 0 <= i < a.kernel_runs.len() implies #[trigger] c.kernel_runs[i]
        == a.kernel_runs[i] by {
        assert(b.kernel_runs[i] == a.kernel_runs[i]);
    }
    assert forall|p: int| 0 <= p < a.phases.len() implies begins(
        (#[trigger] c.phases[p]).transfers,
        a.phases[p].transfers,
    ) by {
        assert(begins(b.phases[p].transfers, a.phases[p].transfers));
        assert forall|x: int| 0 <= x < a.phases[p].transfers.len() implies
            #[trigger] c.phases[p].transfers[x] == a.phases[p].transfers[x] by {
            assert(b.phases[p].transfers[x] == a.phases[p].transfers[x]);
        }
    }
    assert forall|i: int| 0 <= i < a.tiles.len() implies begins(
        (#[trigger] c.tiles[i]).work,
        a.tiles[i].work,
    ) by {
        assert(begins(b.tiles[i].work, a.tiles[i].work));
        assert forall|k: int| 0 <= k < a.tiles[i].work.len() implies #[trigger] c.tiles[i].work[k]
            == a.tiles[i].work[k] by {
            assert(b.tiles[i].work[k] == a.tiles[i].work[k]);
        }
    }
}

pub(crate) proof fn lemma_still_schedules(s: StateModel, t: StateModel, tile: u16, work: TileWork)
    requires
        holds_on(s, t),
        schedules(s, tile, work),
    ensures
        schedules(t, tile, work),
{
    let list = s.tiles[tile as int].work;
    let k = choose|k: int| 0 <= k < list.len() && list[k] == work;
    assert(t.tiles[tile as int].work[k] == work);
}

pub(crate) proof fn lemma_still_copies(s: StateModel, t: StateModel, copies: Seq<LocalCopy>, tile: u16)
    requires
        holds_on(s, t),
        makes_copies(s, copies, tile),
    ensures
        makes_copies(t, copies, tile),
{
    let at = choose|at: int| #[trigger] copies_at(s, copies, tile, at);
    assert forall|i: int| 0 <= i < copies.len() implies t.local_copies[at + i]
        == #[trigger] copies[i] by {
        assert(t.local_copies[at + i] == s.local_copies[at + i]);
    }
    assert forall|i: int| 0 <= i < copies.len() implies schedules(
        t,
        tile,
        TileWork::LocalCopy(LocalCopyId((#[trigger] (at + i)) as u32)),
    ) by {
        lemma_still_schedules(
            s,
            t,
            tile,
            TileWork::LocalCopy(LocalCopyId((at + i) as u32)),
        );
    }
    assert(copies_at(t, copies, tile, at));
}

pub(crate) proof fn lemma_still_exchanges(
    s: StateModel,
    t: StateModel,
    source: ViewModel,
    destination: ViewModel,
)
    requires
        holds_on(s, t),
        makes_exchange(s, source, destination),
    ensures
        makes_exchange(t, source, destination),
{
    let (p, x) = choose|p: int, x: int|
        0 <= p < s.phases.len() && 0 <= x < s.phases[p].transfers.len() && exchanges_views(
            #[trigger] s.phases[p].transfers[x],
            source,
            destination,
        );
    assert(begins(t.phases[p].transfers, s.phases[p].transfers));
    assert(t.phases[p].transfers[x] == s.phases[p].transfers[x]);
}

pub(crate) proof fn lemma_append_copies(s: StateModel, copies: Seq<(u16, LocalCopy)>, i: int)
    requires
        0 <= i <= copies.len(),
    ensures
        match append_copies_from(s, copies, i) {
            Err(_) => true,
            Ok(t) => {
                &&& holds_on(s, t)
                &&& t.local_copies.len() == s.local_copies.len() + copies.len() - i
                &&& forall|k: int|
                    i <= k < copies.len() ==> t.local_copies[s.local_copies.len() + k - i]
                        == (#[trigger] copies[k]).1 && schedules(
                        t,
                        copies[k].0,
                        TileWork::LocalCopy(LocalCopyId((s.local_copies.len() + k - i) as u32)),
                    )
            },
        },
    decreases copies.len() - i,
{
    if i < copies.len() {
        if let Ok(next) = append_local_copy(s, copies[i].0, copies[i].1) {
            let work = TileWork::LocalCopy(LocalCopyId(s.local_copies.len() as u32));
            let tile = copies[i].0;
            let list = s.tiles[tile as int].work;
            assert(next.tiles[tile as int].work[list.len() as int] == work);
            assert(schedules(next, tile, work));
            assert(holds_on(s, next));
            lemma_append_copies(next, copies, i + 1);
            if let Ok(t) = append_copies_from(s, copies, i) {
                lemma_holds_on(s, next, t);
                lemma_still_schedules(next, t, tile, work);
                assert(t.local_copies[s.local_copies.len() as int] == copies[i].1);
                assert forall|k: int| i <= k < copies.len() implies t.local_copies[
                    s.local_copies.len() + k - i
                ] == (#[trigger] copies[k]).1 && schedules(
                    t,
                    copies[k].0,
                    TileWork::LocalCopy(LocalCopyId((s.local_copies.len() + k - i) as u32)),
                ) by {
                    if k > i {
                        assert(next.local_copies.len() + k - (i + 1) == s.local_copies.len() + k
                            - i);
                    }
                }
            }
        }
    }
}

/// Copies of a batch are made when the batch is scheduled.
pub(crate) proof fn lemma_listed_copies_are_made(
    s: StateModel,
    list: Seq<(u16, LocalCopy)>,
    copies: Seq<LocalCopy>,
    tile: u16,
)
    requires
        stands_in(list, on_tile(copies, tile)),
    ensures
        match append_copies_from(s, list, 0) {
            Err(_) => true,
            Ok(t) => makes_copies(t, copies, tile),
        },
{
    let part = on_tile(copies, tile);
    let at = choose|at: int| #[trigger] stands_at(list, part, at);
    lemma_append_copies(s, list, 0);
    if let Ok(t) = append_copies_from(s, list, 0) {
        let start = s.local_copies.len() + at;
        assert forall|i: int| 0 <= i < copies.len() implies t.local_copies[start + i]
            == #[trigger] copies[i] by {
            assert(list[at + i] == part[i]);
            assert(t.local_copies[s.local_copies.len() + (at + i) - 0] == list[at + i].1);
        }
        assert forall|i: int| 0 <= i < copies.len() implies schedules(
            t,
            tile,
            TileWork::LocalCopy(LocalCopyId((#[trigger] (start + i)) as u32)),
        ) by {
            assert(list[at + i] == part[i]);
            assert(s.local_copies.len() + (at + i) - 0 == start + i);
        }
        assert(copies_at(t, copies, tile, start));
    }
}

pub(crate) proof fn lemma_append_kernels(s: StateModel, runs: Seq<(u16, RunModel)>, i: int)
    requires
        0 <= i <= runs.len(),
        forall|k: int|
            0 <= k < runs.len() ==> !((#[trigger] runs[k]).1.metadata.kernel is Gemm),
    ensures
        match append_kernels_from(s, runs, i) {
            Err(_) => true,
            Ok(t) => {
                &&& holds_on(s, t)
                &&& forall|k: int|
                    i <= k < runs.len() ==> makes_run(t, (#[trigger] runs[k]).1, runs[k].0)
            },
        },
    decreases runs.len() - i,
{
    if i < runs.len() {
        if let Ok(next) = append_kernel(s, runs[i].0, runs[i].1) {
            let at = s.kernel_runs.len() as int;
            let work = TileWork::Kernel(KernelRunId(at as u32));
            let tile = runs[i].0;
            let list = s.tiles[tile as int].work;
            assert(next.tiles[tile as int].work[list.len() as int] == work);
            assert(next.kernel_runs[at] == runs[i].1);
            assert(schedules(next, tile, work));
            assert(holds_on(s, next));
            lemma_append_kernels(next, runs, i + 1);
            if let Ok(t) = append_kernels_from(s, runs, i) {
                lemma_holds_on(s, next, t);
                lemma_still_schedules(next, t, tile, work);
                assert(t.kernel_runs[at] == runs[i].1);
                assert(makes_run(t, runs[i].1, tile));
            }
        }
    }
}

/// What a batch sends is exchanged when the batch is scheduled.
pub(crate) proof fn lemma_append_phase(
    s: StateModel,
    transfers: TransfersModel,
    provenance: WorkProvenance,
    order: ExchangeOrder,
)
    requires
        sources_agree(transfers),
    ensures
        match append_ordered_phase(s, transfers, provenance, order) {
            Err(_) => true,
            Ok(t) => {
                &&& holds_on(s, t)
                &&& forall|source: ViewModel, destination: ViewModel|
                    sends(transfers, source, destination) ==> #[trigger] makes_exchange(
                        t,
                        source,
                        destination,
                    )
            },
        },
{
    let all = exchanges(transfers, order);
    if let Ok(t) = append_ordered_phase(s, transfers, provenance, order) {
        let joins = joins_last_phase(s, all, provenance);
        if all.len() > 0 {
            if joins {
                let last = s.phases.len() - 1;
                assert(t.phases[last].transfers == s.phases[last].transfers + all);
                assert forall|p: int| 0 <= p < s.phases.len() implies begins(
                    (#[trigger] t.phases[p]).transfers,
                    s.phases[p].transfers,
                ) by {}
            }
        }
        assert(holds_on(s, t));
        assert forall|source: ViewModel, destination: ViewModel|
            sends(transfers, source, destination) implies #[trigger] makes_exchange(
            t,
            source,
            destination,
        ) by {
            let (g, i) = choose|g: int, i: int|
                0 <= g < transfers.len() && 0 <= i < transfers[g].items.len()
                    && #[trigger] transfers[g].items[i] == (source, destination);
            let items = transfers[g].items;
            assert(transfers[g].items[0].0 == source) by {
                assert(transfers[g].key == view_key(transfers[g].items[0].0));
                assert(transfers[g].key == view_key(transfers[g].items[i].0));
                lemma_view_key_injective(transfers[g].items[0].0, source);
            }
            let views = destinations_of(items);
            lemma_sorted_views(views);
            assert(views[i] == destination);
            assert(views.contains(destination));
            assert(sorted_views(views).contains(destination));
            assert(exchanges_views(all[g], source, destination));
            if joins {
                let last = s.phases.len() - 1;
                let x = s.phases[last].transfers.len() + g;
                assert(t.phases[last].transfers[x] == all[g]);
            } else {
                assert(t.phases[s.phases.len() as int].transfers[g] == all[g]);
            }
        }
    }
}

/// What a batch moves is delivered when the batch is scheduled.
proof fn lemma_moves_are_delivered<M: Target>(
    target: &M,
    s: StateModel,
    batch: BatchModel,
    provenance: WorkProvenance,
    order: ExchangeOrder,
    source: ViewModel,
    destination: ViewModel,
    staged: bool,
    logical: bool,
)
    requires
        in_order(batch),
        moves(target, s.shards, batch, source, destination, staged, logical),
    ensures
        match append_batch(s, batch, provenance, order) {
            Err(_) => true,
            Ok(t) => delivers(target, t, source, destination, logical),
        },
{
    if let Ok(t) = append_batch(s, batch, provenance, order) {
        let a = append_copies_from(s, batch.before, 0)->Ok_0;
        let b = append_ordered_phase(a, batch.transfers, provenance, order)->Ok_0;
        let c = append_copies_from(b, batch.after, 0)->Ok_0;
        lemma_append_copies(s, batch.before, 0);
        lemma_append_phase(a, batch.transfers, provenance, order);
        lemma_append_copies(b, batch.after, 0);
        lemma_append_kernels(c, batch.kernels, 0);
        lemma_holds_on(a, b, c);
        lemma_holds_on(a, c, t);
        lemma_holds_on(b, c, t);
        let tile = s.shards[destination.shard.0 as int].tile;
        if s.shards[source.shard.0 as int].tile == tile {
            let copies = view_copies(
                target,
                s.shards,
                source,
                destination,
                copy_order(logical),
            )->Ok_0;
            if staged {
                lemma_listed_copies_are_made(s, batch.before, copies, tile);
                lemma_still_copies(a, t, copies, tile);
            } else {
                lemma_listed_copies_are_made(b, batch.after, copies, tile);
                lemma_still_copies(c, t, copies, tile);
            }
        } else {
            assert(makes_exchange(b, source, destination));
            lemma_still_exchanges(b, t, source, destination);
        }
    }
}

proof fn lemma_unstaged_are_packed<M: Target>(
    target: &M,
    s: StateModel,
    batch: BatchModel,
    provenance: WorkProvenance,
    order: ExchangeOrder,
    staging: LowShardId,
    destination: LowShardId,
)
    requires
        in_order(batch),
        unstages(target, s.shards, batch, staging, destination, provenance),
    ensures
        match append_batch(s, batch, provenance, order) {
            Err(_) => true,
            Ok(t) => packs(target, t, staging, destination, provenance),
        },
{
    if let Ok(t) = append_batch(s, batch, provenance, order) {
        let a = append_copies_from(s, batch.before, 0)->Ok_0;
        let b = append_ordered_phase(a, batch.transfers, provenance, order)->Ok_0;
        let c = append_copies_from(b, batch.after, 0)->Ok_0;
        lemma_append_copies(s, batch.before, 0);
        lemma_append_phase(a, batch.transfers, provenance, order);
        lemma_append_copies(b, batch.after, 0);
        lemma_append_kernels(c, batch.kernels, 0);
        let from = s.shards[staging.0 as int];
        let to = s.shards[destination.0 as int];
        let run = (to.tile, packing_run(staging, from, destination, to, provenance));
        if batch.kernels.contains(run) {
            let k = choose|k: int| 0 <= k < batch.kernels.len() && batch.kernels[k] == run;
            assert(makes_run(t, batch.kernels[k].1, batch.kernels[k].0));
        } else {
            let copies = view_copies(
                target,
                s.shards,
                ViewModel { shard: staging, extents: from.extents },
                ViewModel { shard: destination, extents: unpadded(to.extents) },
                ExchangeOrder::Semantic,
            )->Ok_0;
            lemma_listed_copies_are_made(b, batch.after, copies, to.tile);
            lemma_still_copies(c, t, copies, to.tile);
        }
    }
}

/// Every mapping is carried over to its destination: by an exchange between
/// tiles, by copies inside one, and either way straight or through staging
/// storage that is then packed into the destination.
pub proof fn lemma_mapped_views_are_delivered<M: Target>(
    target: &M,
    s: StateModel,
    mappings: Seq<(ViewModel, ViewModel)>,
    logical: bool,
    order: ExchangeOrder,
    provenance: WorkProvenance,
)
    ensures
        match lower_mapped_views(target, s, mappings, logical, order, provenance) {
            Err(_) => true,
            Ok(t) => begins(t.shards, s.shards) && forall|j: int|
                0 <= j < mappings.len() ==> is_delivered(
                    target,
                    t,
                    #[trigger] mappings[j],
                    logical,
                    provenance,
                ),
        },
{
    let groups = filed_mappings(mappings, mappings.len() as int);
    lemma_filed_mappings(mappings, mappings.len() as int);
    lemma_populate_from(target, s, groups, logical, provenance, 0, empty_batch());
    if let Ok(t) = lower_mapped_views(target, s, mappings, logical, order, provenance) {
        let (next, batch) = populate_from(
            target,
            s,
            groups,
            logical,
            provenance,
            0,
            empty_batch(),
        )->Ok_0;
        let a = append_copies_from(next, batch.before, 0)->Ok_0;
        let b = append_ordered_phase(a, batch.transfers, provenance, order)->Ok_0;
        let c = append_copies_from(b, batch.after, 0)->Ok_0;
        lemma_append_copies(next, batch.before, 0);
        lemma_append_phase(a, batch.transfers, provenance, order);
        lemma_append_copies(b, batch.after, 0);
        lemma_append_kernels(c, batch.kernels, 0);
        assert(t.shards == next.shards);
        assert forall|j: int| 0 <= j < mappings.len() implies is_delivered(
            target,
            t,
            #[trigger] mappings[j],
            logical,
            provenance,
        ) by {
            let mapping = mappings[j];
            assert(is_filed(groups, 0, mapping));
            assert(carries(target, next.shards, batch, mapping, logical, provenance));
            if moves(target, next.shards, batch, mapping.0, mapping.1, false, logical) {
                lemma_moves_are_delivered(
                    target,
                    next,
                    batch,
                    provenance,
                    order,
                    mapping.0,
                    mapping.1,
                    false,
                    logical,
                );
            } else {
                let staging = choose|staging: LowShardId| #[trigger]
                    carries_through(
                        target,
                        next.shards,
                        batch,
                        mapping,
                        staging,
                        logical,
                        provenance,
                    );
                lemma_moves_are_delivered(
                    target,
                    next,
                    batch,
                    provenance,
                    order,
                    trimmed(mapping.0, mapping.0.shard),
                    trimmed(mapping.1, staging),
                    true,
                    logical,
                );
                lemma_unstaged_are_packed(
                    target,
                    next,
                    batch,
                    provenance,
                    order,
                    staging,
                    mapping.1.shard,
                );
                assert(delivers_through(target, t, mapping, staging, logical, provenance));
            }
        }
    }
}

/// How a conversion gathers its result, if it does not leave it to a kernel.
pub open spec fn gathers_by(s: StateModel, operation: MidOperation) -> Option<ConversionStrategy> {
    match operation.conversion_plan {
        Some(plan) => if plan.strategy == ConversionStrategy::LocalKernel {
            None
        } else {
            Some(plan.strategy)
        },
        None => match converted_formats(s, operation) {
            Ok((from, to)) => if needs_cast(operation, from, to) {
                None
            } else {
                Some(default_strategy(from, to))
            },
            Err(_) => None,
        },
    }
}

/// A conversion moves elements by coordinates, and not by address.
pub open spec fn goes_by_coordinates(strategy: ConversionStrategy) -> bool {
    strategy == ConversionStrategy::StageLogicalThenTransform
}

/// A schedule fills an element of an output with the same element of a source.
pub open spec fn receives<M: Target>(
    target: &M,
    before: StateModel,
    after: StateModel,
    sources: Seq<LowShardId>,
    outputs: Seq<LowShardId>,
    mapping: (ViewModel, ViewModel),
    output: LowShardId,
    element: Seq<int>,
    logical: bool,
    provenance: WorkProvenance,
) -> bool {
    &&& fills(mapping, output, element)
    &&& carries_in_place(before.shards, sources, outputs, mapping)
    &&& is_delivered(target, after, mapping, logical, provenance)
}

/// A shard of the source and a shard of the result of a conversion both have an
/// element.
pub open spec fn both_cover(
    s: StateModel,
    operation: MidOperation,
    k: int,
    j: int,
    element: Seq<int>,
) -> bool {
    let sources = value_shards(s, operation.inputs@[0])->Ok_0;
    let outputs = value_shards(s, operation.results@[0])->Ok_0;
    &&& operation.inputs@.len() == 1
    &&& operation.results@.len() == 1
    &&& value_shards(s, operation.inputs@[0]) is Ok
    &&& value_shards(s, operation.results@[0]) is Ok
    &&& 0 <= k < outputs.len()
    &&& outputs[k].0 < s.shards.len()
    &&& 0 <= j < sources.len()
    &&& sources[j].0 < s.shards.len()
    &&& covers(s.shards[outputs[k].0 as int].extents, element)
    &&& covers(s.shards[sources[j].0 as int].extents, element)
}

/// A converted value holds what it was converted from, with a plan and without:
/// every element of a result shard that some shard of the input holds is
/// carried over from the same element of one that does. Conversions that a
/// kernel makes are left out.
pub proof fn lemma_conversions_deliver_every_element<M: Target>(
    target: &M,
    s: StateModel,
    operation: MidOperation,
    k: int,
    j: int,
    element: Seq<int>,
)
    requires
        both_cover(s, operation, k, j, element),
        gathers_by(s, operation) is Some,
    ensures
        match lower_conversion(target, s, operation) {
            Err(_) => true,
            Ok(t) => exists|mapping: (ViewModel, ViewModel)| #[trigger]
                receives(
                    target,
                    s,
                    t,
                    value_shards(s, operation.inputs@[0])->Ok_0,
                    value_shards(s, operation.results@[0])->Ok_0,
                    mapping,
                    value_shards(s, operation.results@[0])->Ok_0[k],
                    element,
                    goes_by_coordinates(gathers_by(s, operation)->Some_0),
                    provenance_of(operation),
                ),
        },
{
    let sources = value_shards(s, operation.inputs@[0])->Ok_0;
    let outputs = value_shards(s, operation.results@[0])->Ok_0;
    let strategy = gathers_by(s, operation)->Some_0;
    let logical = goes_by_coordinates(strategy);
    let provenance = provenance_of(operation);
    assert(lower_conversion(target, s, operation) == gather_intersections(
        target,
        s,
        operation,
        strategy,
    ));
    if let Ok(t) = gather_intersections(target, s, operation, strategy) {
        let mappings = retiling_from(s.shards, sources, outputs, 0, Seq::empty())->Ok_0;
        lemma_retiling_carries_in_place(s.shards, sources, outputs);
        lemma_retiling_fills_outputs(s.shards, sources, outputs, k, j, element);
        lemma_mapped_views_are_delivered(
            target,
            s,
            mappings,
            logical,
            ExchangeOrder::Semantic,
            provenance,
        );
        let m = choose|m: int|
            0 <= m < mappings.len() && fills(#[trigger] mappings[m], outputs[k], element);
        assert(receives(
            target,
            s,
            t,
            sources,
            outputs,
            mappings[m],
            outputs[k],
            element,
            logical,
            provenance,
        ));
    }
}

// ---------------------------------------------------------------- casts

proof fn lemma_still_runs(s: StateModel, t: StateModel, run: RunModel, tile: u16)
    requires
        holds_on(s, t),
        makes_run(s, run, tile),
    ensures
        makes_run(t, run, tile),
{
    let k = choose|k: int|
        0 <= k < s.kernel_runs.len() && #[trigger] s.kernel_runs[k] == run && schedules(
            s,
            tile,
            TileWork::Kernel(KernelRunId(k as u32)),
        );
    assert(t.kernel_runs[k] == run);
    lemma_still_schedules(s, t, tile, TileWork::Kernel(KernelRunId(k as u32)));
}

proof fn lemma_still_delivers<M: Target>(
    target: &M,
    s: StateModel,
    t: StateModel,
    source: ViewModel,
    destination: ViewModel,
    logical: bool,
)
    requires
        holds_on(s, t),
        delivers(target, s, source, destination, logical),
    ensures
        delivers(target, t, source, destination, logical),
{
    let tile = s.shards[destination.shard.0 as int].tile;
    if s.shards[source.shard.0 as int].tile == tile {
        let copies = view_copies(
            target,
            s.shards,
            source,
            destination,
            copy_order(logical),
        )->Ok_0;
        lemma_still_copies(s, t, copies, tile);
    } else {
        lemma_still_exchanges(s, t, source, destination);
    }
}

proof fn lemma_still_delivered<M: Target>(
    target: &M,
    s: StateModel,
    t: StateModel,
    mapping: (ViewModel, ViewModel),
    logical: bool,
    provenance: WorkProvenance,
)
    requires
        holds_on(s, t),
        is_delivered(target, s, mapping, logical, provenance),
    ensures
        is_delivered(target, t, mapping, logical, provenance),
{
    if delivers(target, s, mapping.0, mapping.1, logical) {
        lemma_still_delivers(target, s, t, mapping.0, mapping.1, logical);
    } else {
        let staging = choose|staging: LowShardId| #[trigger]
            delivers_through(target, s, mapping, staging, logical, provenance);
        lemma_still_delivers(
            target,
            s,
            t,
            trimmed(mapping.0, mapping.0.shard),
            trimmed(mapping.1, staging),
            logical,
        );
        let from = s.shards[staging.0 as int];
        let to = s.shards[mapping.1.shard.0 as int];
        let run = packing_run(staging, from, mapping.1.shard, to, provenance);
        if makes_run(s, run, to.tile) {
            lemma_still_runs(s, t, run, to.tile);
        } else {
            let copies = view_copies(
                target,
                s.shards,
                ViewModel { shard: staging, extents: from.extents },
                ViewModel { shard: mapping.1.shard, extents: unpadded(to.extents) },
                ExchangeOrder::Semantic,
            )->Ok_0;
            lemma_still_copies(s, t, copies, to.tile);
        }
        assert(delivers_through(target, t, mapping, staging, logical, provenance));
    }
}

/// The whole of a shard.
pub open spec fn whole_view(shards: Seq<ShardModel>, id: LowShardId) -> ViewModel {
    ViewModel { shard: id, extents: shards[id.0 as int].extents }
}

/// A schedule casts a scratch shard into an output.
pub open spec fn casts_into(
    s: StateModel,
    precision: Precision,
    scratch: LowShardId,
    output: LowShardId,
    provenance: WorkProvenance,
) -> bool {
    let to = s.shards[output.0 as int];
    &&& scratch.0 < s.shards.len()
    &&& output.0 < s.shards.len()
    &&& makes_run(
        s,
        cast_run(
            precision,
            to.tensor_type.format,
            whole_view(s.shards, scratch),
            whole_view(s.shards, output),
            provenance,
        ),
        to.tile,
    )
}

proof fn lemma_casts_are_made(
    s: StateModel,
    precision: Precision,
    scratch: Seq<LowShardId>,
    outputs: Seq<LowShardId>,
    provenance: WorkProvenance,
    k: int,
)
    requires
        0 <= k,
    ensures
        match cast_from(s, precision, scratch, outputs, provenance, k) {
            Err(_) => true,
            Ok(t) => holds_on(s, t) && forall|i: int|
                k <= i < scratch.len() ==> casts_into(
                    t,
                    precision,
                    #[trigger] scratch[i],
                    outputs[i],
                    provenance,
                ),
        },
    decreases scratch.len() - k,
{
    if k < scratch.len() {
        if let Ok(t) = cast_from(s, precision, scratch, outputs, provenance, k) {
            let to = s.shards[outputs[k].0 as int];
            let run = cast_run(
                precision,
                to.tensor_type.format,
                whole_view(s.shards, scratch[k]),
                whole_view(s.shards, outputs[k]),
                provenance,
            );
            let runs = seq![(to.tile, run)];
            reveal_with_fuel(append_kernels_from, 2);
            lemma_append_kernels(s, runs, 0);
            let next = append_kernel(s, to.tile, run)->Ok_0;
            assert(append_kernels_from(s, runs, 0) == Ok::<StateModel, LowLoweringError>(next));
            assert(runs[0].1 == run);
            assert(makes_run(next, run, to.tile));
            lemma_casts_are_made(next, precision, scratch, outputs, provenance, k + 1);
            lemma_holds_on(s, next, t);
            lemma_still_runs(next, t, run, to.tile);
            assert(casts_into(t, precision, scratch[k], outputs[k], provenance));
        }
    }
}

proof fn lemma_cast_staging_grows(
    s: StateModel,
    precision: Precision,
    outputs: Seq<LowShardId>,
    k: int,
    done: Seq<LowShardId>,
)
    requires
        0 <= k == done.len() <= outputs.len(),
        forall|i: int| 0 <= i < k ==> is_scratch_for(s.shards, #[trigger] done[i], outputs[i]),
    ensures
        match push_cast_staging_from(s, precision, outputs, k, done) {
            Err(_) => true,
            Ok((t, scratch)) => begins(t.shards, s.shards) && scratch.len() == outputs.len()
                && forall|i: int|
                0 <= i < scratch.len() ==> is_scratch_for(
                    t.shards,
                    #[trigger] scratch[i],
                    outputs[i],
                ),
        },
    decreases outputs.len() - k,
{
    if k < outputs.len() {
        if let Ok(output) = shard_of(s.shards, outputs[k]) {
            if let Ok((next, id)) = push_shard(s, cast_staging(precision, output)) {
                let more = done.push(id);
                assert(begins(next.shards, s.shards));
                assert forall|i: int| 0 <= i < more.len() implies is_scratch_for(
                    next.shards,
                    #[trigger] more[i],
                    outputs[i],
                ) by {
                    if i < k {
                        assert(is_scratch_for(s.shards, done[i], outputs[i]));
                    }
                }
                lemma_cast_staging_grows(next, precision, outputs, k + 1, more);
            }
        }
    }
}

/// A scratch shard has room for the elements of an output.
pub open spec fn is_scratch_for(
    shards: Seq<ShardModel>,
    scratch: LowShardId,
    output: LowShardId,
) -> bool {
    &&& scratch.0 < shards.len()
    &&& output.0 < shards.len()
    &&& shards[scratch.0 as int].extents == shards[output.0 as int].extents
}

/// An element is gathered in scratch storage, which is cast into an output.
pub open spec fn casts_element<M: Target>(
    target: &M,
    before: StateModel,
    after: StateModel,
    sources: Seq<LowShardId>,
    scratch: Seq<LowShardId>,
    outputs: Seq<LowShardId>,
    mapping: (ViewModel, ViewModel),
    k: int,
    element: Seq<int>,
    logical: bool,
    precision: Precision,
    provenance: WorkProvenance,
) -> bool {
    &&& receives(
        target,
        before,
        after,
        sources,
        scratch,
        mapping,
        scratch[k],
        element,
        logical,
        provenance,
    )
    &&& casts_into(after, precision, scratch[k], outputs[k], provenance)
}

/// A cast without a plan converts the whole value: every element of a result
/// shard that some shard of the input holds is gathered beside that shard, and
/// a kernel casts what was gathered into it.
pub proof fn lemma_unplanned_casts_convert_every_element<M: Target>(
    target: &M,
    s: StateModel,
    operation: MidOperation,
    k: int,
    j: int,
    element: Seq<int>,
)
    requires
        both_cover(s, operation, k, j, element),
        operation.conversion_plan is None,
        converted_formats(s, operation) is Ok,
        needs_cast(
            operation,
            converted_formats(s, operation)->Ok_0.0,
            converted_formats(s, operation)->Ok_0.1,
        ),
    ensures
        match lower_conversion(target, s, operation) {
            Err(_) => true,
            Ok(t) => exists|
                staged: StateModel,
                scratch: Seq<LowShardId>,
                mapping: (ViewModel, ViewModel),
            | #[trigger]
                casts_element(
                    target,
                    staged,
                    t,
                    value_shards(s, operation.inputs@[0])->Ok_0,
                    scratch,
                    value_shards(s, operation.results@[0])->Ok_0,
                    mapping,
                    k,
                    element,
                    goes_by_coordinates(
                        default_strategy(
                            converted_formats(s, operation)->Ok_0.0,
                            converted_formats(s, operation)->Ok_0.1,
                        ),
                    ),
                    converted_formats(s, operation)->Ok_0.0.precision,
                    provenance_of(operation),
                ) && begins(staged.shards, s.shards),
        },
{
    let sources = value_shards(s, operation.inputs@[0])->Ok_0;
    let outputs = value_shards(s, operation.results@[0])->Ok_0;
    let (from, to) = converted_formats(s, operation)->Ok_0;
    let logical = goes_by_coordinates(default_strategy(from, to));
    let provenance = provenance_of(operation);
    if let Ok(t) = lower_conversion(target, s, operation) {
        let (staged, scratch) = push_cast_staging_from(
            s,
            from.precision,
            outputs,
            0,
            Seq::empty(),
        )->Ok_0;
        lemma_cast_staging_grows(s, from.precision, outputs, 0, Seq::empty());
        let mappings = retiling_from(staged.shards, sources, scratch, 0, Seq::empty())->Ok_0;
        let b = lower_mapped_views(
            target,
            staged,
            mappings,
            logical,
            ExchangeOrder::Semantic,
            provenance,
        )->Ok_0;
        assert(is_scratch_for(staged.shards, scratch[k], outputs[k]));
        lemma_retiling_carries_in_place(staged.shards, sources, scratch);
        lemma_retiling_fills_outputs(staged.shards, sources, scratch, k, j, element);
        lemma_mapped_views_are_delivered(
            target,
            staged,
            mappings,
            logical,
            ExchangeOrder::Semantic,
            provenance,
        );
        let m = choose|m: int|
            0 <= m < mappings.len() && fills(#[trigger] mappings[m], scratch[k], element);
        lemma_casts_are_made(b, from.precision, scratch, outputs, provenance, 0);
        lemma_still_delivered(target, b, t, mappings[m], logical, provenance);
        assert(casts_element(
            target,
            staged,
            t,
            sources,
            scratch,
            outputs,
            mappings[m],
            k,
            element,
            logical,
            from.precision,
            provenance,
        ));
    }
}

} // verus!
