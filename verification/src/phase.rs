//! Exchange phases: ordering their transfers, and joining a phase with the
//! one before it when neither touches storage of the other.

use crate::low::{
    ExchangeModel, ExchangeOrder, ExchangePhase, ExchangePhaseId, LocalCopy, LogicalExchange,
    LowLoweringError, LowLoweringResult, LowShardId, PhaseModel, ShardModel, ShardView, TileWork,
    ViewModel, WorkProvenance, WorkReason,
};
use crate::model::{Model, deep, group_deep};
use crate::order::{
    groups_insert, groups_sorted, key_of_view, lemma_insert_nonempty, lemma_insert_sorted,
    lemma_view_key_injective, less, view_key, GroupModel, Groups,
};
use crate::state::{
    did, id_free, push_everywhere, storage_root, LoweringState, StateModel, Step, Transfers,
    TransfersModel,
};
use vstd::prelude::*;

verus! {

// ---------------------------------------------------------------- transfers

/// The transfers with one more: `source` also populates `destination`.
pub open spec fn add_transfer(
    transfers: TransfersModel,
    source: ViewModel,
    destination: ViewModel,
) -> TransfersModel {
    groups_insert(transfers, view_key(source), (source, destination))
}

/// Records that `source` populates `destination`.
pub fn add_transfer_to(transfers: &mut Transfers, source: ShardView, destination: ShardView)
    ensures
        final(transfers)@ == add_transfer(old(transfers)@, source@, destination@),
        transfers_nonempty(old(transfers)@) ==> transfers_nonempty(final(transfers)@),
{
    proof {
        if transfers_nonempty(transfers@) {
            lemma_insert_nonempty(transfers@, view_key(source@), (source@, destination@));
        }
    }
    let key = key_of_view(&source);
    transfers.insert(key, (source, destination));
}

/// The views up to position `i`, filed by key.
pub open spec fn filed_views(views: Seq<ViewModel>, i: int) -> Seq<GroupModel<ViewModel>>
    decreases i,
{
    if i <= 0 {
        Seq::empty()
    } else {
        groups_insert(filed_views(views, i - 1), view_key(views[i - 1]), views[i - 1])
    }
}

/// The different views among `views`, in key order.
pub open spec fn sorted_views(views: Seq<ViewModel>) -> Seq<ViewModel> {
    let filed = filed_views(views, views.len() as int);
    Seq::new(filed.len(), |i: int| filed[i].items[0])
}

/// The view is among the first `count` views.
pub open spec fn occurs(views: Seq<ViewModel>, count: int, view: ViewModel) -> bool {
    exists|k: int| 0 <= k < count && #[trigger] views[k] == view
}

/// Some group starts with the view.
pub open spec fn leads(filed: Seq<GroupModel<ViewModel>>, view: ViewModel) -> bool {
    exists|g: int| 0 <= g < filed.len() && (#[trigger] filed[g]).items[0] == view
}

/// The group is filed under the key of the view that it starts with.
pub open spec fn filed_by_view(group: GroupModel<ViewModel>) -> bool {
    group.items.len() > 0 && group.key == view_key(group.items[0])
}

#[verifier::spinoff_prover]
#[verifier::rlimit(40)]
proof fn lemma_file_view(filed: Seq<GroupModel<ViewModel>>, view: ViewModel)
    requires
        groups_sorted(filed),
        forall|g: int| 0 <= g < filed.len() ==> filed_by_view(#[trigger] filed[g]),
    ensures
        groups_sorted(groups_insert(filed, view_key(view), view)),
        forall|g: int|
            0 <= g < groups_insert(filed, view_key(view), view).len() ==> filed_by_view(
                #[trigger] groups_insert(filed, view_key(view), view)[g],
            ),
        forall|v: ViewModel| #[trigger]
            leads(groups_insert(filed, view_key(view), view), v) <==> leads(filed, v) || v == view,
{
    let key = view_key(view);
    let after = groups_insert(filed, key, view);
    lemma_insert_sorted(filed, key, view);
    crate::order::lemma_slot_bounds(filed, key);
    let slot = crate::order::slot_from(filed, key, 0);
    let joined = slot < filed.len() && filed[slot].key == key;
    if joined {
        assert(filed_by_view(filed[slot]));
        lemma_view_key_injective(filed[slot].items[0], view);
    }
    assert(after[slot].items[0] == view);
    assert forall|g: int| 0 <= g < after.len() implies filed_by_view(#[trigger] after[g]) by {
        if g != slot {
            let origin = if joined || g < slot {
                g
            } else {
                g - 1
            };
            assert(after[g] == filed[origin]);
        }
    }
    assert forall|v: ViewModel| #[trigger]
        leads(after, v) <==> leads(filed, v) || v == view by {
        if leads(after, v) && v != view {
            let g = choose|g: int| 0 <= g < after.len() && (#[trigger] after[g]).items[0] == v;
            let origin = if joined || g < slot {
                g
            } else {
                g - 1
            };
            assert(after[g] == filed[origin]);
        }
        if leads(filed, v) {
            let g = choose|g: int| 0 <= g < filed.len() && (#[trigger] filed[g]).items[0] == v;
            let moved = if joined || g < slot {
                g
            } else {
                g + 1
            };
            assert(after[moved].items[0] == v);
        }
    }
}

proof fn lemma_filed_views(views: Seq<ViewModel>, count: int)
    requires
        0 <= count <= views.len(),
    ensures
        groups_sorted(filed_views(views, count)),
        forall|g: int|
            0 <= g < filed_views(views, count).len() ==> filed_by_view(
                #[trigger] filed_views(views, count)[g],
            ),
        forall|v: ViewModel| #[trigger]
            leads(filed_views(views, count), v) <==> occurs(views, count, v),
    decreases count,
{
    if count > 0 {
        lemma_filed_views(views, count - 1);
        lemma_file_view(filed_views(views, count - 1), views[count - 1]);
        assert forall|v: ViewModel| #[trigger]
            leads(filed_views(views, count), v) <==> occurs(views, count, v) by {
            assert(leads(filed_views(views, count - 1), v) <==> occurs(views, count - 1, v));
            if occurs(views, count - 1, v) {
                let k = choose|k: int| 0 <= k < count - 1 && #[trigger] views[k] == v;
                assert(views[k] == v);
            }
        }
    } else {
        assert forall|v: ViewModel| !#[trigger] leads(filed_views(views, count), v) by {}
    }
}

/// Sorting keeps exactly the views that were there, each once, in strictly
/// increasing key order.
pub proof fn lemma_sorted_views(views: Seq<ViewModel>)
    ensures
        forall|i: int, j: int|
            0 <= i < j < sorted_views(views).len() ==> less(
                view_key(#[trigger] sorted_views(views)[i]),
                view_key(#[trigger] sorted_views(views)[j]),
            ),
        forall|view: ViewModel| sorted_views(views).contains(view) <==> views.contains(view),
{
    let count = views.len() as int;
    let filed = filed_views(views, count);
    let sorted = sorted_views(views);
    lemma_filed_views(views, count);
    assert forall|i: int, j: int| 0 <= i < j < sorted.len() implies less(
        view_key(#[trigger] sorted[i]),
        view_key(#[trigger] sorted[j]),
    ) by {
        assert(less(filed[i].key, filed[j].key));
    }
    assert forall|view: ViewModel| sorted.contains(view) <==> views.contains(view) by {
        assert(leads(filed, view) <==> occurs(views, count, view));
        if sorted.contains(view) {
            let g = choose|g: int| 0 <= g < sorted.len() && sorted[g] == view;
            assert(filed[g].items[0] == view);
        }
        if leads(filed, view) {
            let g = choose|g: int| 0 <= g < filed.len() && (#[trigger] filed[g]).items[0] == view;
            assert(sorted[g] == view);
        }
    }
}

/// The destinations of the items of one group.
pub open spec fn destinations_of(items: Seq<(ViewModel, ViewModel)>) -> Seq<ViewModel> {
    Seq::new(items.len(), |i: int| items[i].1)
}

/// The exchanges that carry out recorded transfers: one for each source, in key
/// order, with its different destinations in key order.
pub open spec fn exchanges(transfers: TransfersModel, order: ExchangeOrder) -> Seq<
    ExchangeModel,
> {
    Seq::new(
        transfers.len(),
        |i: int|
            ExchangeModel {
                source: transfers[i].items[0].0,
                destinations: sorted_views(destinations_of(transfers[i].items)),
                order,
            },
    )
}

/// Every group of transfers holds at least one.
pub open spec fn transfers_nonempty(transfers: TransfersModel) -> bool {
    forall|i: int| 0 <= i < transfers.len() ==> (#[trigger] transfers[i]).items.len() > 0
}

/// Orders the destinations of one source.
pub fn sort_destinations(items: &Vec<(ShardView, ShardView)>) -> (r: Vec<ShardView>)
    ensures
        deep(r@) == sorted_views(destinations_of(deep(items@))),
{
    broadcast use group_deep;

    let ghost views = destinations_of(deep(items@));
    let mut filed: Groups<ShardView> = Groups::new();
    let mut i: usize = 0;
    while i < items.len()
        invariant
            i <= items@.len(),
            filed@ == filed_views(views, i as int),
        decreases items@.len() - i,
    {
        let view = items[i].1.duplicate();
        assert(view@ == views[i as int]);
        filed.insert(key_of_view(&view), view);
        i += 1;
    }
    proof {
        lemma_filed_views(views, views.len() as int);
    }
    let mut sorted: Vec<ShardView> = Vec::new();
    let mut g: usize = 0;
    while g < filed.entries.len()
        invariant
            g <= filed.entries@.len(),
            filed@ == filed_views(views, views.len() as int),
            sorted@.len() == g,
            forall|k: int| 0 <= k < g ==> (#[trigger] sorted@[k])@ == sorted_views(views)[k],
        decreases filed.entries@.len() - g,
    {
        assert(filed@[g as int] == filed.entries@[g as int]@);
        assert(filed@[g as int].items.len() > 0);
        sorted.push(filed.entries[g].items[0].duplicate());
        g += 1;
    }
    assert(deep(sorted@) =~= sorted_views(views));
    sorted
}

/// Orders recorded transfers for an exchange phase. Recording leaves no group
/// without transfers.
pub fn exchanges_of(transfers: &Transfers, order: ExchangeOrder) -> (r: Vec<LogicalExchange>)
    requires
        transfers_nonempty(transfers@),
    ensures
        deep(r@) == exchanges(transfers@, order),
{
    broadcast use group_deep;

    let mut r: Vec<LogicalExchange> = Vec::new();
    let mut i: usize = 0;
    while i < transfers.entries.len()
        invariant
            i <= transfers.entries@.len(),
            r@.len() == i,
            forall|k: int| 0 <= k < i ==> (#[trigger] r@[k])@ == exchanges(transfers@, order)[k],
        decreases transfers.entries@.len() - i,
    {
        assert(transfers@[i as int] == transfers.entries@[i as int]@);
        assert(transfers@[i as int].items.len() > 0);
        let group = &transfers.entries[i];
        let source = group.items[0].0.duplicate();
        let destinations = sort_destinations(&group.items);
        r.push(LogicalExchange { source, destinations, order });
        i += 1;
    }
    assert(deep(r@) =~= exchanges(transfers@, order));
    r
}

// ---------------------------------------------------------------- phases

/// Whether the transfers read or write the allocation `root`.
pub open spec fn touches(
    shards: Seq<ShardModel>,
    transfers: Seq<ExchangeModel>,
    root: LowShardId,
) -> bool {
    exists|i: int|
        0 <= i < transfers.len() && exchange_touches(shards, #[trigger] transfers[i], root)
}

/// Whether one exchange reads or writes the allocation `root`.
pub open spec fn exchange_touches(
    shards: Seq<ShardModel>,
    exchange: ExchangeModel,
    root: LowShardId,
) -> bool {
    storage_root(shards, exchange.source.shard) == root || exists|j: int|
        0 <= j < exchange.destinations.len() && storage_root(
            shards,
            (#[trigger] exchange.destinations[j]).shard,
        ) == root
}

/// No allocation is touched by both lists of transfers.
pub open spec fn disjoint(
    shards: Seq<ShardModel>,
    a: Seq<ExchangeModel>,
    b: Seq<ExchangeModel>,
) -> bool {
    forall|root: LowShardId| !(touches(shards, a, root) && touches(shards, b, root))
}

/// The work entry is a copy that leaves the touched allocations alone.
pub open spec fn independent_copy(
    s: StateModel,
    work: TileWork,
    transfers: Seq<ExchangeModel>,
) -> bool {
    match work {
        TileWork::LocalCopy(id) => id.0 < s.local_copies.len() && !touches(
            s.shards,
            transfers,
            storage_root(s.shards, s.local_copies[id.0 as int].source),
        ) && !touches(
            s.shards,
            transfers,
            storage_root(s.shards, s.local_copies[id.0 as int].destination),
        ),
        _ => false,
    }
}

/// Since the marker of `phase` the tile only made copies that leave the
/// touched allocations alone.
pub open spec fn quiet_since(
    s: StateModel,
    work: Seq<TileWork>,
    phase: ExchangePhaseId,
    transfers: Seq<ExchangeModel>,
) -> bool {
    exists|p: int|
        {
            &&& 0 <= p < work.len()
            &&& #[trigger] work[p] == TileWork::Exchange(phase)
            &&& forall|q: int|
                p < q < work.len() ==> independent_copy(s, #[trigger] work[q], transfers)
        }
}

/// Whether new transfers may join the last phase: both serve one operation,
/// they touch different allocations, and no tile did anything since that could
/// see the difference.
pub open spec fn joins_last_phase(
    s: StateModel,
    transfers: Seq<ExchangeModel>,
    provenance: WorkProvenance,
) -> bool {
    &&& s.phases.len() > 0
    &&& s.phases.last().provenance.operation is Some
    &&& s.phases.last().provenance.operation == provenance.operation
    &&& disjoint(s.shards, transfers, s.phases.last().transfers)
    &&& forall|t: int|
        0 <= t < s.tiles.len() ==> quiet_since(
            s,
            (#[trigger] s.tiles[t]).work,
            s.phases.last().id,
            transfers,
        )
}

/// The last phase together with new transfers.
pub open spec fn joined_phase(
    phase: PhaseModel,
    transfers: Seq<ExchangeModel>,
    provenance: WorkProvenance,
) -> PhaseModel {
    PhaseModel {
        id: phase.id,
        provenance: if phase.provenance == provenance {
            phase.provenance
        } else {
            WorkProvenance {
                operation: provenance.operation,
                value: None,
                reason: WorkReason::OperatorInputs,
            }
        },
        transfers: phase.transfers + transfers,
    }
}

/// Schedules transfers: nothing without transfers, a larger last phase where
/// they may join it, and otherwise a new phase with a marker on every tile.
pub open spec fn append_exchange_phase(
    s: StateModel,
    transfers: Seq<ExchangeModel>,
    provenance: WorkProvenance,
) -> Step {
    if transfers.len() == 0 {
        Ok(s)
    } else if joins_last_phase(s, transfers, provenance) {
        Ok(
            StateModel {
                phases: s.phases.update(
                    s.phases.len() - 1,
                    joined_phase(s.phases.last(), transfers, provenance),
                ),
                ..s
            },
        )
    } else if id_free(s.phases.len()) {
        let id = ExchangePhaseId(s.phases.len() as u32);
        Ok(
            StateModel {
                phases: s.phases.push(PhaseModel { id, provenance, transfers }),
                tiles: push_everywhere(s.tiles, TileWork::Exchange(id)),
                ..s
            },
        )
    } else {
        Err(LowLoweringError::IdOverflow)
    }
}

/// Schedules recorded transfers in one order.
pub open spec fn append_ordered_phase(
    s: StateModel,
    transfers: TransfersModel,
    provenance: WorkProvenance,
    order: ExchangeOrder,
) -> Step {
    append_exchange_phase(s, exchanges(transfers, order), provenance)
}

/// Schedules transfers of both orders in one phase, the semantic ones first.
pub open spec fn append_mixed_phase(
    s: StateModel,
    semantic: TransfersModel,
    physical: TransfersModel,
    provenance: WorkProvenance,
) -> Step {
    append_exchange_phase(
        s,
        exchanges(semantic, ExchangeOrder::Semantic) + exchanges(physical, ExchangeOrder::Physical),
        provenance,
    )
}

/// The ids are exactly the allocations that the transfers touch.
pub open spec fn lists_touched(
    ids: Seq<LowShardId>,
    shards: Seq<ShardModel>,
    transfers: Seq<ExchangeModel>,
) -> bool {
    forall|root: LowShardId| ids.contains(root) <==> touches(shards, transfers, root)
}

fn contains_id(ids: &Vec<LowShardId>, id: LowShardId) -> (r: bool)
    ensures
        r == ids@.contains(id),
{
    let mut i: usize = 0;
    while i < ids.len()
        invariant
            i <= ids@.len(),
            forall|k: int| 0 <= k < i ==> ids@[k] != id,
        decreases ids@.len() - i,
    {
        if ids[i] == id {
            assert(ids@[i as int] == id);
            return true;
        }
        i += 1;
    }
    false
}

impl LoweringState {
    fn touched_roots(&self, transfers: &Vec<LogicalExchange>) -> (r: Vec<LowShardId>)
        ensures
            lists_touched(r@, self@.shards, deep(transfers@)),
    {
        broadcast use group_deep;

        let ghost shards = self@.shards;
        let ghost model = deep(transfers@);
        let mut roots: Vec<LowShardId> = Vec::new();
        let mut i: usize = 0;
        while i < transfers.len()
            invariant
                i <= transfers@.len(),
                forall|root: LowShardId|
                    #![trigger roots@.contains(root)]
                    roots@.contains(root) <==> exists|k: int|
                        0 <= k < i && exchange_touches(shards, #[trigger] model[k], root),
            decreases transfers@.len() - i,
        {
            let exchange = &transfers[i];
            assert(model[i as int] == exchange@);
            let ghost before = roots@;
            let root = self.storage_root(exchange.source.shard);
            roots.push(root);
            proof {
                assert forall|r: LowShardId| #[trigger]
                    roots@.contains(r) <==> before.contains(r) || r == root by {
                    if before.contains(r) {
                        let k = choose|k: int| 0 <= k < before.len() && before[k] == r;
                        assert(roots@[k] == r);
                    }
                    if r == root {
                        assert(roots@[before.len() as int] == r);
                    }
                }
            }
            let mut j: usize = 0;
            while j < exchange.destinations.len()
                invariant
                    j <= exchange.destinations@.len(),
                    forall|r: LowShardId|
                        #![trigger roots@.contains(r)]
                        roots@.contains(r) <==> before.contains(r) || r == root || exists|k: int|
                            0 <= k < j && storage_root(
                                shards,
                                (#[trigger] exchange@.destinations[k]).shard,
                            ) == r,
                decreases exchange.destinations@.len() - j,
            {
                let ghost inner = roots@;
                let next = self.storage_root(exchange.destinations[j].shard);
                assert(exchange@.destinations[j as int].shard == exchange.destinations@[j as int].shard);
                roots.push(next);
                proof {
                    assert forall|r: LowShardId| #[trigger]
                        roots@.contains(r) <==> inner.contains(r) || r == next by {
                        if inner.contains(r) {
                            let k = choose|k: int| 0 <= k < inner.len() && inner[k] == r;
                            assert(roots@[k] == r);
                        }
                        if r == next {
                            assert(roots@[inner.len() as int] == r);
                        }
                    }
                }
                j += 1;
            }
            proof {
                assert forall|r: LowShardId| #[trigger]
                    roots@.contains(r) <==> exists|k: int|
                        0 <= k < i + 1 && exchange_touches(shards, #[trigger] model[k], r) by {
                    if before.contains(r) {
                        let k = choose|k: int|
                            0 <= k < i && exchange_touches(shards, #[trigger] model[k], r);
                        assert(exchange_touches(shards, model[k], r));
                    }
                    if exchange_touches(shards, model[i as int], r) {
                        assert(roots@.contains(r));
                    }
                    if roots@.contains(r) && !before.contains(r) {
                        assert(exchange_touches(shards, model[i as int], r));
                    }
                }
            }
            i += 1;
        }
        roots
    }

    fn is_quiet_since(
        &self,
        work: &Vec<TileWork>,
        phase: ExchangePhaseId,
        touched: &Vec<LowShardId>,
        Ghost(transfers): Ghost<Seq<ExchangeModel>>,
    ) -> (r: bool)
        requires
            lists_touched(touched@, self@.shards, transfers),
        ensures
            r == quiet_since(self@, work@, phase, transfers),
    {
        let mut i: usize = work.len();
        while i > 0
            invariant
                i <= work@.len(),
                forall|q: int|
                    i <= q < work@.len() ==> independent_copy(self@, #[trigger] work@[q], transfers),
            decreases i,
        {
            let entry = work[i - 1];
            if entry == TileWork::Exchange(phase) {
                assert(work@[i - 1] == TileWork::Exchange(phase));
                return true;
            }
            let independent = match entry {
                TileWork::LocalCopy(id) => {
                    if (id.0 as usize) < self.local_copies.len() {
                        let copy = self.local_copies[id.0 as usize];
                        !contains_id(touched, self.storage_root(copy.source)) && !contains_id(
                            touched,
                            self.storage_root(copy.destination),
                        )
                    } else {
                        false
                    }
                },
                _ => false,
            };
            assert(independent == independent_copy(self@, work@[i - 1], transfers));
            if !independent {
                return false;
            }
            i -= 1;
        }
        false
    }

    fn may_join_last_phase(
        &self,
        transfers: &Vec<LogicalExchange>,
        provenance: WorkProvenance,
    ) -> (r: bool)
        ensures
            r == joins_last_phase(self@, deep(transfers@), provenance),
    {
        broadcast use group_deep;

        if self.phases.len() == 0 {
            return false;
        }
        let last = &self.phases[self.phases.len() - 1];
        assert(last@ == self@.phases.last());
        let same_operation = match (last.provenance.operation, provenance.operation) {
            (Some(a), Some(b)) => a == b,
            _ => false,
        };
        if !same_operation {
            return false;
        }
        let ghost model = deep(transfers@);
        let touched = self.touched_roots(transfers);
        let previous = self.touched_roots(&last.transfers);
        let mut i: usize = 0;
        while i < touched.len()
            invariant
                i <= touched@.len(),
                forall|k: int| 0 <= k < i ==> !previous@.contains(#[trigger] touched@[k]),
            decreases touched@.len() - i,
        {
            if contains_id(&previous, touched[i]) {
                assert(touched@.contains(touched@[i as int]));
                assert(touches(self@.shards, model, touched@[i as int]));
                return false;
            }
            i += 1;
        }
        assert(disjoint(self@.shards, model, last@.transfers)) by {
            assert forall|root: LowShardId|
                !(touches(self@.shards, model, root) && touches(
                    self@.shards,
                    last@.transfers,
                    root,
                )) by {
                if touches(self@.shards, model, root) {
                    assert(touched@.contains(root));
                    let k = choose|k: int| 0 <= k < touched@.len() && touched@[k] == root;
                    assert(!previous@.contains(touched@[k]));
                }
            }
        }
        let mut t: usize = 0;
        while t < self.tiles.len()
            invariant
                t <= self.tiles@.len(),
                forall|k: int|
                    0 <= k < t ==> quiet_since(
                        self@,
                        (#[trigger] self@.tiles[k]).work,
                        last.id,
                        model,
                    ),
            decreases self.tiles@.len() - t,
        {
            assert(self@.tiles[t as int] == self.tiles@[t as int]@);
            if !self.is_quiet_since(&self.tiles[t].work, last.id, &touched, Ghost(model)) {
                return false;
            }
            t += 1;
        }
        true
    }

    /// Adds the same entry to the work of every tile.
    pub fn push_everywhere(&mut self, work: TileWork)
        ensures
            final(self)@ == (StateModel {
                tiles: push_everywhere(old(self)@.tiles, work),
                ..old(self)@
            }),
    {
        broadcast use group_deep;

        let ghost before = self@;
        let ghost lists = self.tiles@;
        let ghost marked = push_everywhere(before.tiles, work);
        let ghost middle = self@;
        let mut t: usize = 0;
        while t < self.tiles.len()
            invariant
                t <= self.tiles@.len(),
                self.tiles@.len() == lists.len(),
                self@ == (StateModel { tiles: deep(self.tiles@), ..middle }),
                forall|k: int| 0 <= k < t ==> (#[trigger] self.tiles@[k])@ == marked[k],
                forall|k: int| t <= k < lists.len() ==> #[trigger] self.tiles@[k] == lists[k],
            decreases self.tiles@.len() - t,
        {
            let ghost prior = self.tiles@;
            assert(prior[t as int] == lists[t as int]);
            self.tiles[t].work.push(work);
            proof {
                let list = self.tiles@[t as int];
                assert(self.tiles@ =~= prior.update(t as int, list));
                assert(before.tiles[t as int] == lists[t as int]@);
                assert(list@ == marked[t as int]);
            }
            t += 1;
        }
        assert(deep(self.tiles@) =~= marked);
    }

    pub fn append_exchange_phase(
        &mut self,
        transfers: Vec<LogicalExchange>,
        provenance: WorkProvenance,
    ) -> (r: LowLoweringResult<()>)
        ensures
            did(r, final(self)@, append_exchange_phase(old(self)@, deep(transfers@), provenance)),
    {
        broadcast use group_deep;

        let ghost model = deep(transfers@);
        let ghost before = self@;
        if transfers.len() == 0 {
            return Ok(());
        }
        if self.may_join_last_phase(&transfers, provenance) {
            let last = self.phases.len() - 1;
            let ghost phases = self.phases@;
            let mut transfers = transfers;
            self.phases[last].transfers.append(&mut transfers);
            if self.phases[last].provenance != provenance {
                self.phases[last].provenance = WorkProvenance {
                    operation: provenance.operation,
                    value: None,
                    reason: WorkReason::OperatorInputs,
                };
            }
            proof {
                let phase = self.phases@[last as int];
                assert(self.phases@ =~= phases.update(last as int, phase));
                assert(phase@ == joined_phase(before.phases.last(), model, provenance));
            }
            return Ok(());
        }
        let len = self.phases.len();
        if len > 0xffff_ffff {
            return Err(LowLoweringError::IdOverflow);
        }
        let id = ExchangePhaseId(len as u32);
        self.phases.push(ExchangePhase { id, provenance, transfers });
        self.push_everywhere(TileWork::Exchange(id));
        Ok(())
    }

    pub fn append_ordered_phase(
        &mut self,
        transfers: &Transfers,
        provenance: WorkProvenance,
        order: ExchangeOrder,
    ) -> (r: LowLoweringResult<()>)
        requires
            transfers_nonempty(transfers@),
        ensures
            did(r, final(self)@, append_ordered_phase(old(self)@, transfers@, provenance, order)),
    {
        let exchanges = exchanges_of(transfers, order);
        self.append_exchange_phase(exchanges, provenance)
    }

    pub fn append_mixed_phase(
        &mut self,
        semantic: &Transfers,
        physical: &Transfers,
        provenance: WorkProvenance,
    ) -> (r: LowLoweringResult<()>)
        requires
            transfers_nonempty(semantic@),
            transfers_nonempty(physical@),
        ensures
            did(
                r,
                final(self)@,
                append_mixed_phase(old(self)@, semantic@, physical@, provenance),
            ),
    {
        broadcast use group_deep;

        let mut exchanges = exchanges_of(semantic, ExchangeOrder::Semantic);
        let mut others = exchanges_of(physical, ExchangeOrder::Physical);
        exchanges.append(&mut others);
        self.append_exchange_phase(exchanges, provenance)
    }
}

} // verus!
