//! What unpacking the result of a product does: every shard of the value is
//! rearranged, on its own tile, into row-major storage of the same rectangle.

use crate::buffers::{append_attention_rearrange, rearrange_run};
use crate::carriage::{begins, schedules};
use crate::conversion::{row_major_staging, unpack_amp, unpack_from};
use crate::kernels::append_kernel;
use crate::low::{KernelRunId, LowLoweringError, LowShardId, TileWork, ViewModel, WorkProvenance};
use crate::mid::{KernelSpec, MidValueId};
use crate::state::{push_shard, StateModel};
use crate::tensor::ElementOrder;
use vstd::prelude::*;

verus! {

/// A run of the schedule rearranges all of a shard into all of its staging. Both
/// are on the tile that makes the run and hold the same rectangle of the same
/// tensor; the staging is in row-major order.
pub open spec fn unpacks_at(
    s: StateModel,
    t: StateModel,
    id: LowShardId,
    staging: LowShardId,
    at: int,
) -> bool {
    let from = s.shards[id.0 as int];
    let to = t.shards[staging.0 as int];
    &&& id.0 < s.shards.len()
    &&& staging.0 < t.shards.len()
    &&& to.tile == from.tile
    &&& to.extents == from.extents
    &&& to.tensor_type.shape == from.tensor_type.shape
    &&& to.tensor_type.format.precision == from.tensor_type.format.precision
    &&& to.tensor_type.format.layout.order == ElementOrder::RowMajor
    &&& 0 <= at < t.kernel_runs.len()
    &&& schedules(t, from.tile, TileWork::Kernel(KernelRunId(at as u32)))
    &&& t.kernel_runs[at].metadata.kernel == (KernelSpec::Rearrange {
        from: from.tensor_type.format.layout,
        to: to.tensor_type.format.layout,
    })
    &&& t.kernel_runs[at].inputs == seq![seq![ViewModel { shard: id, extents: from.extents }]]
    &&& t.kernel_runs[at].output == (ViewModel { shard: staging, extents: from.extents })
}

/// A longer schedule with more shards.
spec fn grows(s: StateModel, t: StateModel) -> bool {
    &&& begins(t.shards, s.shards)
    &&& begins(t.kernel_runs, s.kernel_runs)
    &&& t.canonical == s.canonical
    &&& t.tiles.len() == s.tiles.len()
    &&& forall|i: int|
        0 <= i < s.tiles.len() ==> begins((#[trigger] t.tiles[i]).work, s.tiles[i].work)
}

proof fn lemma_grows_on(a: StateModel, b: StateModel, c: StateModel)
    requires
        grows(a, b),
        grows(b, c),
    ensures
        grows(a, c),
{
    assert forall|r: int| 0 <= r < a.kernel_runs.len() implies #[trigger] c.kernel_runs[r]
        == a.kernel_runs[r] by {
        assert(b.kernel_runs[r] == a.kernel_runs[r]);
    }
    assert forall|r: int| 0 <= r < a.shards.len() implies #[trigger] c.shards[r] == a.shards[r] by {
        assert(b.shards[r] == a.shards[r]);
    }
    assert forall|i: int| 0 <= i < a.tiles.len() implies begins(
        (#[trigger] c.tiles[i]).work,
        a.tiles[i].work,
    ) by {
        assert(begins(c.tiles[i].work, b.tiles[i].work));
        assert(begins(b.tiles[i].work, a.tiles[i].work));
        assert forall|w: int| 0 <= w < a.tiles[i].work.len() implies #[trigger] c.tiles[i].work[w]
            == a.tiles[i].work[w] by {
            assert(b.tiles[i].work[w] == a.tiles[i].work[w]);
        }
    }
}

proof fn lemma_still_unpacks(
    s: StateModel,
    a: StateModel,
    b: StateModel,
    id: LowShardId,
    staging: LowShardId,
    at: int,
)
    requires
        unpacks_at(s, a, id, staging, at),
        grows(a, b),
    ensures
        unpacks_at(s, b, id, staging, at),
{
    let tile = s.shards[id.0 as int].tile;
    let work = TileWork::Kernel(KernelRunId(at as u32));
    let list = a.tiles[tile as int].work;
    let w = choose|w: int| 0 <= w < list.len() && list[w] == work;
    assert(begins(b.tiles[tile as int].work, list));
    assert(b.tiles[tile as int].work[w] == work);
    assert(b.shards[staging.0 as int] == a.shards[staging.0 as int]);
    assert(b.kernel_runs[at] == a.kernel_runs[at]);
}

proof fn lemma_unpack_from(
    first: StateModel,
    s: StateModel,
    ids: Seq<LowShardId>,
    provenance: WorkProvenance,
    k: int,
    done: Seq<LowShardId>,
)
    requires
        grows(first, s),
        forall|i: int| 0 <= i < ids.len() ==> (#[trigger] ids[i]).0 < first.shards.len(),
        0 <= k <= ids.len(),
        done.len() == k,
        s.kernel_runs.len() == first.kernel_runs.len() + k,
        forall|i: int|
            0 <= i < k ==> unpacks_at(
                first,
                s,
                ids[i],
                #[trigger] done[i],
                first.kernel_runs.len() + i,
            ),
    ensures
        match unpack_from(s, ids, provenance, k, done) {
            Ok((t, staging)) => {
                &&& grows(first, t)
                &&& staging.len() == ids.len()
                &&& t.kernel_runs.len() == first.kernel_runs.len() + ids.len()
                &&& forall|i: int|
                    0 <= i < ids.len() ==> unpacks_at(
                        first,
                        t,
                        ids[i],
                        #[trigger] staging[i],
                        first.kernel_runs.len() + i,
                    )
            },
            Err(_) => true,
        },
    decreases ids.len() - k,
{
    if k < ids.len() {
        let shard = s.shards[ids[k].0 as int];
        assert(shard == first.shards[ids[k].0 as int]);
        if let Ok((pushed, staging)) = push_shard(s, row_major_staging(shard)) {
            assert(pushed.shards[ids[k].0 as int] == shard);
            if let Ok(next) = append_attention_rearrange(
                pushed,
                shard.tile,
                ids[k],
                staging,
                4,
                provenance,
            ) {
                let at = s.kernel_runs.len() as int;
                let work = TileWork::Kernel(KernelRunId(at as u32));
                let list = s.tiles[shard.tile as int].work;
                let to = pushed.shards[staging.0 as int];
                let run = rearrange_run(ids[k], shard, staging, to, 4, provenance);
                assert(append_kernel(pushed, shard.tile, run) == Ok::<
                    StateModel,
                    LowLoweringError,
                >(next));
                assert(next.kernel_runs == s.kernel_runs.push(run));
                assert(next.tiles[shard.tile as int].work == list.push(work));
                assert(next.tiles[shard.tile as int].work[list.len() as int] == work);
                assert(grows(s, next));
                lemma_grows_on(first, s, next);
                let more = done.push(staging);
                assert(unpacks_at(first, next, ids[k], staging, at));
                assert forall|i: int| 0 <= i < k + 1 implies unpacks_at(
                    first,
                    next,
                    ids[i],
                    #[trigger] more[i],
                    first.kernel_runs.len() + i,
                ) by {
                    if i < k {
                        assert(more[i] == done[i]);
                        lemma_still_unpacks(
                            first,
                            s,
                            next,
                            ids[i],
                            done[i],
                            first.kernel_runs.len() + i,
                        );
                    }
                }
                lemma_unpack_from(first, next, ids, provenance, k + 1, more);
            }
        }
    }
}

/// Unpacking a value rearranges each of its shards, in order, into a staging of
/// its own.
pub proof fn lemma_unpacking_rearranges_every_shard(
    s: StateModel,
    value: MidValueId,
    provenance: WorkProvenance,
)
    requires
        value.0 < s.canonical.len(),
        forall|i: int|
            0 <= i < s.canonical[value.0 as int].len() ==> (
            #[trigger] s.canonical[value.0 as int][i]).0 < s.shards.len(),
    ensures
        match unpack_amp(s, value, provenance) {
            Ok((t, Some(staging))) => {
                let ids = s.canonical[value.0 as int];
                &&& staging.len() == ids.len()
                &&& t.kernel_runs.len() == s.kernel_runs.len() + ids.len()
                &&& begins(t.shards, s.shards)
                &&& t.canonical == s.canonical
                &&& forall|i: int|
                    0 <= i < ids.len() ==> unpacks_at(
                        s,
                        t,
                        ids[i],
                        #[trigger] staging[i],
                        s.kernel_runs.len() + i,
                    )
            },
            Ok((t, None)) => t == s,
            Err(_) => true,
        },
{
    let ids = s.canonical[value.0 as int];
    assert(grows(s, s));
    lemma_unpack_from(s, s, ids, provenance, 0, Seq::empty());
}

} // verus!
