//! What a conversion does that every tile makes for itself: each shard of the
//! result is computed on its tile, from the shard of the input there.

use crate::carriage::{begins, schedules};
use crate::conversion::{
    conversion_run, convert_locally_from, lower_conversion, lower_local_conversion, provenance_of,
};
use crate::kernels::append_kernel;
use crate::lookup::{first_on, local_shard, resides};
use crate::low::{KernelRunId, LowShardId, TileWork, ViewModel};
use crate::mid::{ConversionPlan, ConversionStrategy, MidOperation, MidValueId};
use crate::state::StateModel;
use crate::target::Target;
use vstd::prelude::*;

verus! {

/// The shard is one of a value's, and is on a tile.
pub open spec fn is_shard_on(s: StateModel, value: MidValueId, id: LowShardId, tile: u16) -> bool {
    &&& value.0 < s.canonical.len()
    &&& s.canonical[value.0 as int].contains(id)
    &&& id.0 < s.shards.len()
    &&& s.shards[id.0 as int].tile == tile
}

proof fn lemma_first_is_there(s: StateModel, ids: Seq<LowShardId>, tile: u16, i: int)
    requires
        0 <= i,
    ensures
        match first_on(s.shards, ids, tile, i) {
            Some(id) => ids.contains(id) && resides(s.shards, id, tile),
            None => forall|k: int|
                i <= k < ids.len() ==> !resides(s.shards, #[trigger] ids[k], tile),
        },
    decreases ids.len() - i,
{
    if i < ids.len() {
        if resides(s.shards, ids[i], tile) {
            assert(ids.contains(ids[i]));
        } else {
            lemma_first_is_there(s, ids, tile, i + 1);
        }
    }
}

/// A value's shard on a tile is found where there is one, and only there.
pub proof fn lemma_shards_are_found_on_their_tiles(s: StateModel, value: MidValueId, tile: u16)
    ensures
        match local_shard(s, value, tile) {
            Ok(id) => is_shard_on(s, value, id, tile),
            Err(_) => forall|id: LowShardId| !#[trigger] is_shard_on(s, value, id, tile),
        },
{
    if value.0 < s.canonical.len() {
        let ids = s.canonical[value.0 as int];
        lemma_first_is_there(s, ids, tile, 0);
        if let Err(_) = local_shard(s, value, tile) {
            assert forall|id: LowShardId| !#[trigger] is_shard_on(s, value, id, tile) by {
                if ids.contains(id) {
                    let k = choose|k: int| 0 <= k < ids.len() && ids[k] == id;
                    assert(!resides(s.shards, ids[k], tile));
                }
            }
        }
    }
}

/// The run at a position converts all of a shard of the input into all of a
/// shard of the result, with the plan's kernel, on the tile of both.
pub open spec fn converts_at(
    s: StateModel,
    t: StateModel,
    plan: ConversionPlan,
    input: MidValueId,
    output: LowShardId,
    at: int,
) -> bool {
    let tile = s.shards[output.0 as int].tile;
    let run = t.kernel_runs[at];
    &&& output.0 < s.shards.len()
    &&& 0 <= at < t.kernel_runs.len()
    &&& schedules(t, tile, TileWork::Kernel(KernelRunId(at as u32)))
    &&& run.metadata.kernel == plan.kernel@
    &&& run.output == (ViewModel {
        shard: output,
        extents: s.shards[output.0 as int].extents,
    })
    &&& exists|from: LowShardId| #[trigger]
        is_shard_on(s, input, from, tile) && run.inputs == seq![
            seq![ViewModel { shard: from, extents: s.shards[from.0 as int].extents }],
        ]
}

proof fn lemma_locally_converted(
    s: StateModel,
    plan: ConversionPlan,
    operation: MidOperation,
    outputs: Seq<LowShardId>,
    k: int,
)
    requires
        0 <= k <= outputs.len(),
        operation.inputs@.len() == 1,
        !(plan.kernel@ is Gemm),
    ensures
        match convert_locally_from(
            s,
            plan,
            operation.inputs@[0],
            outputs,
            provenance_of(operation),
            k,
        ) {
            Ok(t) => {
                &&& t.shards == s.shards
                &&& t.tiles.len() == s.tiles.len()
                &&& forall|i: int|
                    0 <= i < s.tiles.len() ==> begins((#[trigger] t.tiles[i]).work, s.tiles[i].work)
                &&& begins(t.kernel_runs, s.kernel_runs)
                &&& t.kernel_runs.len() == s.kernel_runs.len() + outputs.len() - k
                &&& forall|i: int|
                    k <= i < outputs.len() ==> converts_at(
                        s,
                        t,
                        plan,
                        operation.inputs@[0],
                        #[trigger] outputs[i],
                        s.kernel_runs.len() + i - k,
                    )
            },
            Err(_) => true,
        },
    decreases outputs.len() - k,
{
    let input = operation.inputs@[0];
    let provenance = provenance_of(operation);
    if k < outputs.len() {
        if let Ok(t) = convert_locally_from(s, plan, input, outputs, provenance, k) {
            let to = s.shards[outputs[k].0 as int];
            let from = local_shard(s, input, to.tile)->Ok_0;
            lemma_shards_are_found_on_their_tiles(s, input, to.tile);
            let run = conversion_run(
                plan,
                ViewModel { shard: from, extents: s.shards[from.0 as int].extents },
                ViewModel { shard: outputs[k], extents: to.extents },
                provenance,
            );
            let next = append_kernel(s, to.tile, run)->Ok_0;
            let at = s.kernel_runs.len() as int;
            let work = TileWork::Kernel(KernelRunId(at as u32));
            let list = s.tiles[to.tile as int].work;
            assert(next.canonical == s.canonical && next.shards == s.shards);
            assert(next.kernel_runs == s.kernel_runs.push(run));
            assert(next.tiles[to.tile as int].work == list.push(work));
            lemma_locally_converted(next, plan, operation, outputs, k + 1);
            assert(t.kernel_runs[at] == next.kernel_runs[at]);
            assert(t.tiles[to.tile as int].work[list.len() as int] == next.tiles[to.tile as int].work[
                list.len() as int]);
            assert(t.tiles[to.tile as int].work.contains(work));
            assert(is_shard_on(s, input, from, to.tile));
            assert(converts_at(s, t, plan, input, outputs[k], at));
            assert forall|i: int| k <= i < outputs.len() implies converts_at(
                s,
                t,
                plan,
                input,
                #[trigger] outputs[i],
                s.kernel_runs.len() + i - k,
            ) by {
                if i > k {
                    let place = next.kernel_runs.len() + i - (k + 1);
                    assert(converts_at(next, t, plan, input, outputs[i], place));
                    let tile = s.shards[outputs[i].0 as int].tile;
                    let f = choose|f: LowShardId| #[trigger]
                        is_shard_on(next, input, f, tile) && t.kernel_runs[place].inputs == seq![
                            seq![ViewModel { shard: f, extents: next.shards[f.0 as int].extents }],
                        ];
                    assert(is_shard_on(s, input, f, tile));
                }
            }
            assert forall|i: int| 0 <= i < s.tiles.len() implies begins(
                (#[trigger] t.tiles[i]).work,
                s.tiles[i].work,
            ) by {
                assert(begins(t.tiles[i].work, next.tiles[i].work));
                assert forall|w: int| 0 <= w < s.tiles[i].work.len() implies #[trigger] t.tiles[i].work[w]
                    == s.tiles[i].work[w] by {
                    assert(next.tiles[i].work[w] == s.tiles[i].work[w]);
                }
            }
            assert forall|r: int| 0 <= r < s.kernel_runs.len() implies #[trigger] t.kernel_runs[r]
                == s.kernel_runs[r] by {
                assert(next.kernel_runs[r] == s.kernel_runs[r]);
            }
        }
    }
}

/// A conversion that every tile makes for itself adds one run for each shard of
/// the result, in order. It is on the shard's tile, its kernel is the plan's, its
/// output is all of the shard, and its only input is all of a shard of the input
/// on the same tile.
pub proof fn lemma_local_conversions_convert_every_shard<M: Target>(
    target: &M,
    s: StateModel,
    operation: MidOperation,
    plan: ConversionPlan,
)
    requires
        operation.conversion_plan == Some(plan),
        plan.strategy == ConversionStrategy::LocalKernel,
        !(plan.kernel@ is Gemm),
    ensures
        lower_conversion(target, s, operation) == lower_local_conversion(s, operation, plan),
        match lower_conversion(target, s, operation) {
            Ok(t) => {
                let result = operation.results@[0];
                &&& operation.inputs@.len() == 1
                &&& operation.results@.len() == 1
                &&& result.0 < s.canonical.len()
                &&& t.kernel_runs.len() == s.kernel_runs.len() + s.canonical[result.0 as int].len()
                &&& forall|i: int|
                    0 <= i < s.canonical[result.0 as int].len() ==> converts_at(
                        s,
                        t,
                        plan,
                        operation.inputs@[0],
                        #[trigger] s.canonical[result.0 as int][i],
                        s.kernel_runs.len() + i,
                    )
            },
            Err(_) => true,
        },
{
    if let Ok(t) = lower_conversion(target, s, operation) {
        let outputs = s.canonical[operation.results@[0].0 as int];
        lemma_locally_converted(s, plan, operation, outputs, 0);
        assert forall|i: int| 0 <= i < outputs.len() implies converts_at(
            s,
            t,
            plan,
            operation.inputs@[0],
            #[trigger] outputs[i],
            s.kernel_runs.len() + i,
        ) by {
            assert(converts_at(
                s,
                t,
                plan,
                operation.inputs@[0],
                outputs[i],
                s.kernel_runs.len() + i - 0,
            ));
        }
    }
}

} // verus!
