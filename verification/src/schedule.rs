//! What holds of every schedule under construction, and what every step keeps:
//! ids are positions, entries lead somewhere, and all tiles meet the same
//! exchanges in the same order.

use crate::low::{
    ExchangeModel, ExchangePhaseId, LocalCopy, LowShardId, MetadataModel, RepeatModel, RepeatRunId,
    RunModel, ShardDefinition, ShardModel, TileWork, ViewModel, WorkListModel, WorkProvenance,
};
use crate::lookup::resides;
use crate::phase::{append_exchange_phase, joined_phase, joins_last_phase};
use crate::state::{
    append_local_copy, append_repeat, append_single_kernel, id_free, interned, push_everywhere,
    push_shard, push_work, redefine, StateModel,
};
use vstd::prelude::*;

verus! {

// ---------------------------------------------------------------- soundness

/// All views are of shards on the tile.
pub open spec fn views_reside(shards: Seq<ShardModel>, views: Seq<ViewModel>, tile: u16) -> bool {
    forall|i: int| 0 <= i < views.len() ==> resides(shards, (#[trigger] views[i]).shard, tile)
}

/// All views of all operands are of shards on the tile.
#[verifier::opaque]
pub open spec fn operands_reside(
    shards: Seq<ShardModel>,
    operands: Seq<Seq<ViewModel>>,
    tile: u16,
) -> bool {
    forall|i: int| 0 <= i < operands.len() ==> views_reside(shards, #[trigger] operands[i], tile)
}

/// All shards that a run reads and the one that it writes are on the tile.
#[verifier::opaque]
pub open spec fn run_resides(shards: Seq<ShardModel>, run: RunModel, tile: u16) -> bool {
    resides(shards, run.output.shard, tile) && operands_reside(shards, run.inputs, tile)
}

/// All runs are on the tiles that they are meant for.
#[verifier::opaque]
pub open spec fn runs_reside(shards: Seq<ShardModel>, runs: Seq<(u16, RunModel)>) -> bool {
    forall|i: int|
        0 <= i < runs.len() ==> run_resides(shards, (#[trigger] runs[i]).1, runs[i].0)
}

/// A copy is between shards on the tile.
pub open spec fn copy_resides(shards: Seq<ShardModel>, copy: LocalCopy, tile: u16) -> bool {
    resides(shards, copy.source, tile) && resides(shards, copy.destination, tile)
}

/// All copies are on the tiles that they are meant for.
#[verifier::opaque]
pub open spec fn copies_reside(shards: Seq<ShardModel>, copies: Seq<(u16, LocalCopy)>) -> bool {
    forall|i: int|
        0 <= i < copies.len() ==> copy_resides(shards, (#[trigger] copies[i]).1, copies[i].0)
}

/// The entry refers to something that exists: a copy and a kernel to shards
/// that are all on the tile, and a repeat to a body that is the tile's own.
pub open spec fn leads_somewhere(s: StateModel, tile: u16, work: TileWork) -> bool {
    match work {
        TileWork::Exchange(id) => id.0 < s.phases.len(),
        TileWork::LocalCopy(id) => id.0 < s.local_copies.len() && copy_resides(
            s.shards,
            s.local_copies[id.0 as int],
            tile,
        ),
        TileWork::Kernel(id) => id.0 < s.kernel_runs.len() && run_resides(
            s.shards,
            s.kernel_runs[id.0 as int],
            tile,
        ),
        TileWork::Repeat(id) => id.0 < s.repeat_runs.len() && s.repeat_runs[id.0 as int].body.tile
            == tile,
        TileWork::Checkpoint(_, _) => true,
    }
}

/// All entries of a list lead somewhere.
pub open spec fn list_leads(s: StateModel, list: WorkListModel) -> bool {
    forall|k: int|
        0 <= k < list.work.len() ==> leads_somewhere(s, list.tile, #[trigger] list.work[k])
}

/// The exchanges that a list meets, in order.
pub open spec fn markers(work: Seq<TileWork>) -> Seq<ExchangePhaseId>
    decreases work.len(),
{
    if work.len() == 0 {
        Seq::empty()
    } else {
        match work.last() {
            TileWork::Exchange(id) => markers(work.drop_last()).push(id),
            _ => markers(work.drop_last()),
        }
    }
}

/// Shards and phases are found by their ids.
pub open spec fn ids_are_positions(s: StateModel) -> bool {
    &&& forall|i: int| 0 <= i < s.shards.len() ==> (#[trigger] s.shards[i]).id.0 == i
    &&& forall|i: int| 0 <= i < s.phases.len() ==> (#[trigger] s.phases[i]).id.0 == i
}

/// Every exchange moves something.
pub open spec fn phases_move(s: StateModel) -> bool {
    forall|i: int| 0 <= i < s.phases.len() ==> (#[trigger] s.phases[i]).transfers.len() > 0
}

/// Every tile has a list of its own, and all its entries lead somewhere. So do
/// those of the bodies of repeats.
pub open spec fn lists_lead(s: StateModel) -> bool {
    &&& s.tiles.len() == s.tile_count
    &&& forall|t: int|
        0 <= t < s.tiles.len() ==> (#[trigger] s.tiles[t]).tile == t && list_leads(s, s.tiles[t])
    &&& forall|r: int|
        0 <= r < s.repeat_runs.len() ==> list_leads(s, (#[trigger] s.repeat_runs[r]).body)
}

/// All tiles meet the same exchanges in the same order.
pub open spec fn tiles_agree(s: StateModel) -> bool {
    forall|t: int, u: int|
        0 <= t < s.tiles.len() && 0 <= u < s.tiles.len() ==> markers(
            (#[trigger] s.tiles[t]).work,
        ) == markers((#[trigger] s.tiles[u]).work)
}

/// Kernel runs share their metadata: no entry is there twice.
pub open spec fn metadata_is_shared(s: StateModel) -> bool {
    &&& forall|i: int, j: int|
        0 <= i < j < s.kernel_metadata.len() ==> #[trigger] s.kernel_metadata[i]
            != #[trigger] s.kernel_metadata[j]
    &&& forall|r: int|
        0 <= r < s.kernel_runs.len() ==> s.kernel_metadata.contains(
            (#[trigger] s.kernel_runs[r]).metadata,
        )
}

/// A schedule as lowering keeps it.
pub open spec fn is_sound(s: StateModel) -> bool {
    &&& ids_are_positions(s)
    &&& phases_move(s)
    &&& lists_lead(s)
    &&& tiles_agree(s)
    &&& metadata_is_shared(s)
}

/// What a shard is does not change, whatever it is redefined as.
pub open spec fn same_shard(a: ShardModel, b: ShardModel) -> bool {
    b == (ShardModel { definition: b.definition, ..a })
}

/// The second schedule has everything that the first's lists lead to, in the
/// same places, and the same shards for every value.
pub open spec fn keeps(s: StateModel, t: StateModel) -> bool {
    &&& t.tile_count == s.tile_count
    &&& t.canonical == s.canonical
    &&& s.shards.len() <= t.shards.len()
    &&& forall|i: int|
        0 <= i < s.shards.len() ==> same_shard(#[trigger] s.shards[i], t.shards[i])
    &&& s.phases.len() <= t.phases.len()
    &&& s.kernel_runs.is_prefix_of(t.kernel_runs)
    &&& s.local_copies.is_prefix_of(t.local_copies)
    &&& s.repeat_runs.is_prefix_of(t.repeat_runs)
}

/// The second schedule has everything that the first has, and its lists begin
/// as the first's do.
pub open spec fn extends(s: StateModel, t: StateModel) -> bool {
    &&& keeps(s, t)
    &&& s.tiles.len() == t.tiles.len()
    &&& forall|i: int|
        0 <= i < s.tiles.len() ==> (#[trigger] s.tiles[i]).work.is_prefix_of(t.tiles[i].work)
            && s.tiles[i].tile == t.tiles[i].tile
}

/// Work meets an exchange, itself or in the body of a repeat that it makes, at
/// most so many repeats deep.
pub open spec fn meets_within(
    s: StateModel,
    work: Seq<TileWork>,
    phase: int,
    depth: nat,
) -> bool
    decreases depth,
{
    ||| work.contains(TileWork::Exchange(ExchangePhaseId(phase as u32)))
    ||| depth > 0 && exists|r: int|
        0 <= r < s.repeat_runs.len() && work.contains(TileWork::Repeat(RepeatRunId(r as u32)))
            && meets_within(
            s,
            (#[trigger] s.repeat_runs[r]).body.work,
            phase,
            (depth - 1) as nat,
        )
}

/// A tile meets an exchange.
pub open spec fn tile_meets(s: StateModel, tile: int, phase: int) -> bool {
    exists|depth: nat| #[trigger] meets_within(s, s.tiles[tile].work, phase, depth)
}

/// Every tile meets an exchange.
pub open spec fn is_met(s: StateModel, phase: int) -> bool {
    forall|t: int| 0 <= t < s.tiles.len() ==> #[trigger] tile_meets(s, t, phase)
}

/// Every exchange that the second schedule has and the first has not is met.
pub open spec fn meets_new_phases(s: StateModel, t: StateModel) -> bool {
    forall|p: int| s.phases.len() <= p < t.phases.len() ==> #[trigger] is_met(t, p)
}

/// A step from a schedule keeps all that was there, puts the exchanges that it
/// adds into the lists, and keeps a sound schedule sound.
#[verifier::opaque]
pub open spec fn follows(s: StateModel, t: StateModel) -> bool {
    extends(s, t) && (is_sound(s) ==> is_sound(t) && meets_new_phases(s, t))
}

pub broadcast proof fn lemma_follows_itself(s: StateModel)
    ensures
        #[trigger] follows(s, s),
{
    reveal(follows);
}

pub broadcast proof fn lemma_follows_on(a: StateModel, b: StateModel, c: StateModel)
    requires
        #[trigger] follows(a, b),
        #[trigger] follows(b, c),
    ensures
        follows(a, c),
{
    reveal(follows);
    lemma_extends_on(a, b, c);
    if is_sound(a) {
        assert forall|p: int| a.phases.len() <= p < c.phases.len() implies #[trigger] is_met(
            c,
            p,
        ) by {
            if p < b.phases.len() {
                lemma_still_met(b, c, p);
            }
        }
    }
}

/// What work meets, longer work meets in a schedule with more repeats.
pub proof fn lemma_still_meets(
    s: StateModel,
    t: StateModel,
    work: Seq<TileWork>,
    more: Seq<TileWork>,
    phase: int,
    depth: nat,
)
    requires
        s.repeat_runs.is_prefix_of(t.repeat_runs),
        work.is_prefix_of(more),
        meets_within(s, work, phase, depth),
    ensures
        meets_within(t, more, phase, depth),
    decreases depth,
{
    let exchange = TileWork::Exchange(ExchangePhaseId(phase as u32));
    if work.contains(exchange) {
        let k = work.index_of(exchange);
        assert(more[k] == exchange);
    } else {
        let r = choose|r: int|
            0 <= r < s.repeat_runs.len() && work.contains(TileWork::Repeat(RepeatRunId(r as u32)))
                && meets_within(
                s,
                (#[trigger] s.repeat_runs[r]).body.work,
                phase,
                (depth - 1) as nat,
            );
        let entry = TileWork::Repeat(RepeatRunId(r as u32));
        let k = work.index_of(entry);
        assert(more[k] == entry);
        assert(t.repeat_runs[r] == s.repeat_runs[r]);
        let body = s.repeat_runs[r].body.work;
        lemma_still_meets(s, t, body, body, phase, (depth - 1) as nat);
    }
}

/// What a longer schedule has met, it still meets.
pub proof fn lemma_still_met(s: StateModel, t: StateModel, phase: int)
    requires
        extends(s, t),
        is_met(s, phase),
    ensures
        is_met(t, phase),
{
    assert forall|i: int| 0 <= i < t.tiles.len() implies #[trigger] tile_meets(t, i, phase) by {
        assert(tile_meets(s, i, phase));
        let depth = choose|depth: nat| #[trigger]
            meets_within(s, s.tiles[i].work, phase, depth);
        assert(s.tiles[i].work.is_prefix_of(t.tiles[i].work));
        lemma_still_meets(s, t, s.tiles[i].work, t.tiles[i].work, phase, depth);
    }
}

/// What is on a tile stays there.
pub broadcast proof fn lemma_still_resides(s: StateModel, t: StateModel, id: LowShardId, tile: u16)
    requires
        #[trigger] follows(s, t),
        #[trigger] resides(s.shards, id, tile),
    ensures
        resides(t.shards, id, tile),
{
    reveal(follows);
    assert(same_shard(s.shards[id.0 as int], t.shards[id.0 as int]));
}

pub broadcast proof fn lemma_operands_still_reside(
    s: StateModel,
    t: StateModel,
    operands: Seq<Seq<ViewModel>>,
    tile: u16,
)
    requires
        #[trigger] follows(s, t),
        #[trigger] operands_reside(s.shards, operands, tile),
    ensures
        operands_reside(t.shards, operands, tile),
{
    reveal(follows);
    lemma_operands_reside_on(s, t, operands, tile);
}

pub broadcast proof fn lemma_run_still_resides(
    s: StateModel,
    t: StateModel,
    run: RunModel,
    tile: u16,
)
    requires
        #[trigger] follows(s, t),
        #[trigger] run_resides(s.shards, run, tile),
    ensures
        run_resides(t.shards, run, tile),
{
    reveal(follows);
    lemma_run_resides_on(s, t, run, tile);
}

pub broadcast proof fn lemma_runs_still_reside(
    s: StateModel,
    t: StateModel,
    runs: Seq<(u16, RunModel)>,
)
    requires
        #[trigger] follows(s, t),
        #[trigger] runs_reside(s.shards, runs),
    ensures
        runs_reside(t.shards, runs),
{
    reveal(follows);
    reveal(runs_reside);
    assert forall|i: int| 0 <= i < runs.len() implies run_resides(
        t.shards,
        (#[trigger] runs[i]).1,
        runs[i].0,
    ) by {
        lemma_run_resides_on(s, t, runs[i].1, runs[i].0);
    }
}

proof fn lemma_operands_reside_on(
    s: StateModel,
    t: StateModel,
    operands: Seq<Seq<ViewModel>>,
    tile: u16,
)
    requires
        keeps(s, t),
        operands_reside(s.shards, operands, tile),
    ensures
        operands_reside(t.shards, operands, tile),
{
    reveal(operands_reside);
    assert forall|i: int| 0 <= i < operands.len() implies views_reside(
        t.shards,
        #[trigger] operands[i],
        tile,
    ) by {
        assert(views_reside(s.shards, operands[i], tile));
        assert forall|j: int| 0 <= j < operands[i].len() implies resides(
            t.shards,
            (#[trigger] operands[i][j]).shard,
            tile,
        ) by {
            let id = operands[i][j].shard;
            assert(resides(s.shards, id, tile));
            assert(same_shard(s.shards[id.0 as int], t.shards[id.0 as int]));
        }
    }
}

proof fn lemma_run_resides_on(s: StateModel, t: StateModel, run: RunModel, tile: u16)
    requires
        keeps(s, t),
        run_resides(s.shards, run, tile),
    ensures
        run_resides(t.shards, run, tile),
{
    reveal(run_resides);
    let id = run.output.shard;
    assert(same_shard(s.shards[id.0 as int], t.shards[id.0 as int]));
    lemma_operands_reside_on(s, t, run.inputs, tile);
}

proof fn lemma_copy_resides_on(s: StateModel, t: StateModel, copy: LocalCopy, tile: u16)
    requires
        keeps(s, t),
        copy_resides(s.shards, copy, tile),
    ensures
        copy_resides(t.shards, copy, tile),
{
    let (a, b) = (copy.source.0 as int, copy.destination.0 as int);
    assert(same_shard(s.shards[a], t.shards[a]));
    assert(same_shard(s.shards[b], t.shards[b]));
}

pub broadcast proof fn lemma_copies_still_reside(
    s: StateModel,
    t: StateModel,
    copies: Seq<(u16, LocalCopy)>,
)
    requires
        #[trigger] follows(s, t),
        #[trigger] copies_reside(s.shards, copies),
    ensures
        copies_reside(t.shards, copies),
{
    reveal(follows);
    reveal(copies_reside);
    assert forall|i: int| 0 <= i < copies.len() implies copy_resides(
        t.shards,
        (#[trigger] copies[i]).1,
        copies[i].0,
    ) by {
        lemma_copy_resides_on(s, t, copies[i].1, copies[i].0);
    }
}

pub proof fn lemma_no_copies_reside(shards: Seq<ShardModel>)
    ensures
        copies_reside(shards, Seq::empty()),
{
    reveal(copies_reside);
}

/// A run is on a tile where its output and its operands are.
pub proof fn lemma_run_resides(shards: Seq<ShardModel>, run: RunModel, tile: u16)
    requires
        resides(shards, run.output.shard, tile),
        operands_reside(shards, run.inputs, tile),
    ensures
        run_resides(shards, run, tile),
{
    reveal(run_resides);
}

/// One more operand with one view.
pub proof fn lemma_operand_resides(
    shards: Seq<ShardModel>,
    operands: Seq<Seq<ViewModel>>,
    view: ViewModel,
    tile: u16,
)
    requires
        operands_reside(shards, operands, tile),
        resides(shards, view.shard, tile),
    ensures
        operands_reside(shards, operands.push(seq![view]), tile),
{
    reveal(operands_reside);
}

pub proof fn lemma_no_operands_reside(shards: Seq<ShardModel>, tile: u16)
    ensures
        operands_reside(shards, Seq::empty(), tile),
{
    reveal(operands_reside);
}

/// A run with one operand of one view.
pub proof fn lemma_unary_resides(
    shards: Seq<ShardModel>,
    run: RunModel,
    input: ViewModel,
    tile: u16,
)
    requires
        run.inputs == seq![seq![input]],
        resides(shards, input.shard, tile),
        resides(shards, run.output.shard, tile),
    ensures
        run_resides(shards, run, tile),
{
    reveal(operands_reside);
    reveal(run_resides);
}

/// A run with two operands of one view each.
pub proof fn lemma_binary_resides(
    shards: Seq<ShardModel>,
    run: RunModel,
    first: ViewModel,
    second: ViewModel,
    tile: u16,
)
    requires
        run.inputs == seq![seq![first], seq![second]],
        resides(shards, first.shard, tile),
        resides(shards, second.shard, tile),
        resides(shards, run.output.shard, tile),
    ensures
        run_resides(shards, run, tile),
{
    reveal(operands_reside);
    reveal(run_resides);
}

/// One more run.
pub proof fn lemma_pushed_run_resides(
    shards: Seq<ShardModel>,
    runs: Seq<(u16, RunModel)>,
    tile: u16,
    run: RunModel,
)
    requires
        runs_reside(shards, runs),
        run_resides(shards, run, tile),
    ensures
        runs_reside(shards, runs.push((tile, run))),
{
    reveal(runs_reside);
}

pub proof fn lemma_no_runs_reside(shards: Seq<ShardModel>)
    ensures
        runs_reside(shards, Seq::empty()),
{
    reveal(runs_reside);
}

pub broadcast group group_follows {
    lemma_follows_itself,
    lemma_follows_on,
    lemma_still_resides,
    lemma_operands_still_reside,
    lemma_run_still_resides,
    lemma_runs_still_reside,
    lemma_copies_still_reside,
}

/// Extending a schedule twice extends it.
pub proof fn lemma_extends_on(a: StateModel, b: StateModel, c: StateModel)
    requires
        extends(a, b),
        extends(b, c),
    ensures
        extends(a, c),
{
    assert forall|i: int| 0 <= i < a.shards.len() implies same_shard(
        #[trigger] a.shards[i],
        c.shards[i],
    ) by {
        assert(same_shard(a.shards[i], b.shards[i]));
        assert(same_shard(b.shards[i], c.shards[i]));
    }
    assert forall|i: int| 0 <= i < a.tiles.len() implies (#[trigger] a.tiles[i]).work.is_prefix_of(
        c.tiles[i].work,
    ) && a.tiles[i].tile == c.tiles[i].tile by {
        assert(b.tiles[i].work.is_prefix_of(c.tiles[i].work));
    }
}

/// What a sound schedule's entries lead to is still there in a longer one.
pub proof fn lemma_still_leads(s: StateModel, t: StateModel, list: WorkListModel)
    requires
        keeps(s, t),
        list_leads(s, list),
    ensures
        list_leads(t, list),
{
    assert forall|k: int| 0 <= k < list.work.len() implies leads_somewhere(
        t,
        list.tile,
        #[trigger] list.work[k],
    ) by {
        assert(leads_somewhere(s, list.tile, list.work[k]));
        match list.work[k] {
            TileWork::Kernel(id) => {
                lemma_run_resides_on(s, t, s.kernel_runs[id.0 as int], list.tile);
            },
            TileWork::LocalCopy(id) => {
                lemma_copy_resides_on(s, t, s.local_copies[id.0 as int], list.tile);
            },
            _ => {},
        }
    }
}

proof fn lemma_markers_push(work: Seq<TileWork>, entry: TileWork)
    ensures
        markers(work.push(entry)) == (match entry {
            TileWork::Exchange(id) => markers(work).push(id),
            _ => markers(work),
        }),
{
    assert(work.push(entry).drop_last() =~= work);
}

// ---------------------------------------------------------------- steps

pub proof fn lemma_push_shard(s: StateModel, shard: ShardModel)
    ensures
        match push_shard(s, shard) {
            Ok((t, id)) => follows(s, t) && resides(t.shards, id, shard.tile),
            Err(_) => true,
        },
{
    reveal(follows);
    if let Ok((t, _)) = push_shard(s, shard) {
        assert(extends(s, t));
        if is_sound(s) {
            lemma_lists_survive(s, t);
        }
    }
}

pub proof fn lemma_redefine(s: StateModel, id: LowShardId, definition: ShardDefinition)
    ensures
        match redefine(s, id, definition) {
            Ok(t) => follows(s, t),
            Err(_) => true,
        },
{
    reveal(follows);
    if let Ok(t) = redefine(s, id, definition) {
        assert(extends(s, t));
        if is_sound(s) {
            lemma_lists_survive(s, t);
        }
    }
}

/// Lists lead on where nothing was appended to them.
proof fn lemma_lists_survive(s: StateModel, t: StateModel)
    requires
        lists_lead(s),
        extends(s, t),
        t.tiles == s.tiles,
        t.repeat_runs == s.repeat_runs,
    ensures
        lists_lead(t),
{
    assert forall|i: int| 0 <= i < t.tiles.len() implies (#[trigger] t.tiles[i]).tile == i
        && list_leads(t, t.tiles[i]) by {
        lemma_still_leads(s, t, s.tiles[i]);
    }
    assert forall|r: int| 0 <= r < t.repeat_runs.len() implies list_leads(
        t,
        (#[trigger] t.repeat_runs[r]).body,
    ) by {
        lemma_still_leads(s, t, s.repeat_runs[r].body);
    }
}

/// Appending an entry that is no exchange keeps a schedule sound, where the
/// entry leads somewhere.
proof fn lemma_push_work(s: StateModel, tile: u16, work: TileWork)
    requires
        !(work is Exchange),
    ensures
        match push_work(s, tile, work) {
            Ok(t) => extends(s, t) && (is_sound(s) && leads_somewhere(s, tile, work) ==> is_sound(
                t,
            )),
            Err(_) => true,
        },
{
    if let Ok(t) = push_work(s, tile, work) {
        assert(extends(s, t));
        if is_sound(s) && leads_somewhere(s, tile, work) {
            assert forall|i: int| 0 <= i < t.tiles.len() implies (#[trigger] t.tiles[i]).tile == i
                && list_leads(t, t.tiles[i]) by {
                assert(s.tiles[i].tile == i && list_leads(s, s.tiles[i]));
                lemma_still_leads(s, t, s.tiles[i]);
                assert forall|k: int| 0 <= k < t.tiles[i].work.len() implies leads_somewhere(
                    t,
                    t.tiles[i].tile,
                    #[trigger] t.tiles[i].work[k],
                ) by {
                    if k < s.tiles[i].work.len() {
                        assert(leads_somewhere(t, s.tiles[i].tile, s.tiles[i].work[k]));
                    } else if let TileWork::Kernel(id) = work {
                        lemma_run_resides_on(s, t, s.kernel_runs[id.0 as int], tile);
                    }
                }
            }
            assert forall|r: int| 0 <= r < t.repeat_runs.len() implies list_leads(
                t,
                (#[trigger] t.repeat_runs[r]).body,
            ) by {
                lemma_still_leads(s, t, s.repeat_runs[r].body);
            }
            lemma_markers_push(s.tiles[tile as int].work, work);
            assert forall|i: int| 0 <= i < t.tiles.len() implies markers(
                (#[trigger] t.tiles[i]).work,
            ) == markers(s.tiles[i].work) by {}
            assert(tiles_agree(t)) by {
                assert forall|i: int, j: int|
                    0 <= i < t.tiles.len() && 0 <= j < t.tiles.len() implies markers(
                    (#[trigger] t.tiles[i]).work,
                ) == markers((#[trigger] t.tiles[j]).work) by {
                    assert(markers(s.tiles[i].work) == markers(s.tiles[j].work));
                }
            }
        }
    }
}

pub proof fn lemma_append_local_copy(s: StateModel, tile: u16, copy: LocalCopy)
    requires
        copy_resides(s.shards, copy, tile),
    ensures
        match append_local_copy(s, tile, copy) {
            Ok(t) => follows(s, t),
            Err(_) => true,
        },
{
    reveal(follows);
    if id_free(s.local_copies.len()) {
        let middle = StateModel { local_copies: s.local_copies.push(copy), ..s };
        assert(extends(s, middle));
        if is_sound(s) {
            lemma_lists_survive(s, middle);
        }
        let work = TileWork::LocalCopy(crate::low::LocalCopyId(s.local_copies.len() as u32));
        lemma_push_work(middle, tile, work);
        if let Ok(t) = push_work(middle, tile, work) {
            lemma_extends_on(s, middle, t);
        }
    }
}

/// A repeat keeps a schedule sound where its body is the tile's and the entries
/// of the body lead somewhere.
pub proof fn lemma_append_repeat(s: StateModel, tile: u16, repeat: RepeatModel)
    ensures
        match append_repeat(s, tile, repeat) {
            Ok(t) => extends(s, t) && (is_sound(s) && list_leads(s, repeat.body)
                && repeat.body.tile == tile ==> is_sound(t)),
            Err(_) => true,
        },
{
    if id_free(s.repeat_runs.len()) {
        let middle = StateModel { repeat_runs: s.repeat_runs.push(repeat), ..s };
        assert(extends(s, middle));
        if is_sound(s) && list_leads(s, repeat.body) {
            assert forall|i: int| 0 <= i < middle.tiles.len() implies (
            #[trigger] middle.tiles[i]).tile == i && list_leads(middle, middle.tiles[i]) by {
                lemma_still_leads(s, middle, s.tiles[i]);
            }
            assert forall|r: int| 0 <= r < middle.repeat_runs.len() implies list_leads(
                middle,
                (#[trigger] middle.repeat_runs[r]).body,
            ) by {
                if r < s.repeat_runs.len() {
                    lemma_still_leads(s, middle, s.repeat_runs[r].body);
                } else {
                    lemma_still_leads(s, middle, repeat.body);
                }
            }
        }
        let work = TileWork::Repeat(crate::low::RepeatRunId(s.repeat_runs.len() as u32));
        lemma_push_work(middle, tile, work);
        if let Ok(t) = push_work(middle, tile, work) {
            lemma_extends_on(s, middle, t);
        }
    }
}

proof fn lemma_interned(list: Seq<MetadataModel>, metadata: MetadataModel)
    requires
        forall|i: int, j: int|
            0 <= i < j < list.len() ==> #[trigger] list[i] != #[trigger] list[j],
    ensures
        forall|i: int, j: int|
            0 <= i < j < interned(list, metadata).len() ==> #[trigger] interned(list, metadata)[i]
                != #[trigger] interned(list, metadata)[j],
        interned(list, metadata).contains(metadata),
        forall|m: MetadataModel| list.contains(m) ==> interned(list, metadata).contains(m),
{
    let after = interned(list, metadata);
    if !list.contains(metadata) {
        assert(after[list.len() as int] == metadata);
        assert forall|m: MetadataModel| list.contains(m) implies after.contains(m) by {
            let i = list.index_of(m);
            assert(after[i] == m);
        }
        assert forall|i: int, j: int| 0 <= i < j < after.len() implies #[trigger] after[i]
            != #[trigger] after[j] by {
            if j == list.len() {
                assert(list.contains(list[i]));
            }
        }
    }
}

pub proof fn lemma_append_single_kernel(s: StateModel, tile: u16, run: RunModel)
    requires
        run_resides(s.shards, run, tile),
    ensures
        match append_single_kernel(s, tile, run) {
            Ok(t) => follows(s, t),
            Err(_) => true,
        },
{
    reveal(follows);
    if id_free(s.kernel_runs.len()) {
        let middle = StateModel {
            kernel_metadata: interned(s.kernel_metadata, run.metadata),
            kernel_runs: s.kernel_runs.push(run),
            ..s
        };
        assert(extends(s, middle));
        if is_sound(s) {
            lemma_lists_survive(s, middle);
            lemma_interned(s.kernel_metadata, run.metadata);
            assert(metadata_is_shared(middle)) by {
                assert forall|r: int|
                    0 <= r < middle.kernel_runs.len() implies middle.kernel_metadata.contains(
                    (#[trigger] middle.kernel_runs[r]).metadata,
                ) by {
                    if r < s.kernel_runs.len() {
                        assert(s.kernel_metadata.contains(s.kernel_runs[r].metadata));
                    }
                }
            }
        }
        lemma_run_resides_on(s, middle, run, tile);
        let work = TileWork::Kernel(crate::low::KernelRunId(s.kernel_runs.len() as u32));
        lemma_push_work(middle, tile, work);
        if let Ok(t) = push_work(middle, tile, work) {
            lemma_extends_on(s, middle, t);
        }
    }
}

/// The same entry on every tile keeps a schedule sound.
pub proof fn lemma_push_everywhere(s: StateModel, work: TileWork)
    requires
        work is Exchange || work is Checkpoint,
        leads_somewhere(s, 0, work),
    ensures
        follows(s, StateModel { tiles: push_everywhere(s.tiles, work), ..s }),
{
    reveal(follows);
    let t = StateModel { tiles: push_everywhere(s.tiles, work), ..s };
    assert forall|i: int| 0 <= i < s.tiles.len() implies (#[trigger] s.tiles[i]).work.is_prefix_of(
        t.tiles[i].work,
    ) && s.tiles[i].tile == t.tiles[i].tile by {}
    assert(extends(s, t));
    if is_sound(s) {
        assert forall|i: int| 0 <= i < t.tiles.len() implies (#[trigger] t.tiles[i]).tile == i
            && list_leads(t, t.tiles[i]) by {
            assert(s.tiles[i].tile == i && list_leads(s, s.tiles[i]));
            lemma_still_leads(s, t, s.tiles[i]);
            assert forall|k: int| 0 <= k < t.tiles[i].work.len() implies leads_somewhere(
                t,
                t.tiles[i].tile,
                #[trigger] t.tiles[i].work[k],
            ) by {
                if k < s.tiles[i].work.len() {
                    assert(leads_somewhere(t, s.tiles[i].tile, s.tiles[i].work[k]));
                }
            }
        }
        assert forall|r: int| 0 <= r < t.repeat_runs.len() implies list_leads(
            t,
            (#[trigger] t.repeat_runs[r]).body,
        ) by {
            lemma_still_leads(s, t, s.repeat_runs[r].body);
        }
        assert forall|i: int, j: int|
            0 <= i < t.tiles.len() && 0 <= j < t.tiles.len() implies markers(
            (#[trigger] t.tiles[i]).work,
        ) == markers((#[trigger] t.tiles[j]).work) by {
            assert(markers(s.tiles[i].work) == markers(s.tiles[j].work));
            lemma_markers_push(s.tiles[i].work, work);
            lemma_markers_push(s.tiles[j].work, work);
        }
    }
}

pub proof fn lemma_append_exchange_phase(
    s: StateModel,
    transfers: Seq<ExchangeModel>,
    provenance: WorkProvenance,
)
    ensures
        match append_exchange_phase(s, transfers, provenance) {
            Ok(t) => follows(s, t),
            Err(_) => true,
        },
{
    broadcast use group_follows;

    if transfers.len() == 0 {
    } else if joins_last_phase(s, transfers, provenance) {
        reveal(follows);
        let t = StateModel {
            phases: s.phases.update(
                s.phases.len() - 1,
                joined_phase(s.phases.last(), transfers, provenance),
            ),
            ..s
        };
        assert(extends(s, t));
        if is_sound(s) {
            lemma_lists_survive(s, t);
        }
    } else if id_free(s.phases.len()) {
        let id = ExchangePhaseId(s.phases.len() as u32);
        let phase = crate::low::PhaseModel { id, provenance, transfers };
        let middle = StateModel { phases: s.phases.push(phase), ..s };
        let work = TileWork::Exchange(id);
        let t = StateModel { tiles: push_everywhere(s.tiles, work), ..middle };
        lemma_push_everywhere(middle, work);
        reveal(follows);
        assert(extends(s, middle));
        lemma_extends_on(s, middle, t);
        if is_sound(s) {
            lemma_lists_survive(s, middle);
        }
        assert forall|p: int| s.phases.len() <= p < t.phases.len() implies #[trigger] is_met(
            t,
            p,
        ) by {
            assert forall|i: int| 0 <= i < t.tiles.len() implies #[trigger] tile_meets(
                t,
                i,
                p,
            ) by {
                assert(t.tiles[i].work.last() == work);
                assert(meets_within(t, t.tiles[i].work, p, 0));
            }
        }
    }
}

} // verus!
