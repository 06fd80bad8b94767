//! Where a product reads its left operand: in the shard that the first input
//! has on the tile of the run, for every run that it schedules.

use crate::batched_products::lemma_run_count;
use crate::carriage::{begins, schedules};
use crate::gemm::{
    block_range, column_interleaved, column_outputs_from, fresh_pass, gemm_column,
    gemm_columns_from, gemm_output, gemm_outputs_from, gemm_pass, gemm_passes_from, left_from,
    left_operand, pass_provenance, resident_right, right_block, GemmKernels, GemmModel, GemmPlan,
    Staged,
};
use crate::kernels::{
    append_kernel, append_kernels_from, matrix_operands_from, matrix_run, matrix_runs_along,
    matrix_runs_below, matrix_view, matrix_views_from,
};
use crate::local_conversions::{is_shard_on, lemma_shards_are_found_on_their_tiles};
use crate::lookup::{converted_from, prefer_local, right_shards_from};
use crate::low::{
    ExchangeOrder, KernelRunId, LocalCopy, LowShardId, RunModel, ShardModel, TileWork, ViewModel,
};
use crate::mid::{GemmDistribution, GemmOrientation, MidOperation, MidValueId};
use crate::phase::append_ordered_phase;
use crate::product_coverage::{lemma_append_run, makes_at, runs_at, scheduled_runs};
use crate::reduction_sum::lower_blocked_gemm;
use crate::state::{append_copies_from, append_local_copy, StateModel};
use crate::target::Target;
use vstd::prelude::*;

verus! {

/// Both runs use the same shards, view by view.
pub open spec fn same_shards(part: RunModel, whole: RunModel) -> bool {
    &&& part.output.shard == whole.output.shard
    &&& part.inputs.len() == whole.inputs.len()
    &&& forall|i: int|
        0 <= i < part.inputs.len() ==> (#[trigger] part.inputs[i]).len() == whole.inputs[i].len()
    &&& forall|i: int, k: int|
        0 <= i < part.inputs.len() && 0 <= k < part.inputs[i].len() ==> (
        #[trigger] part.inputs[i][k]).shard == whole.inputs[i][k].shard
}

/// A run with two operands of one view each. The first is of a shard that a
/// value has on the tile.
pub open spec fn reads_left(s: StateModel, value: MidValueId, run: RunModel, tile: u16) -> bool {
    &&& run.inputs.len() == 2
    &&& run.inputs[0].len() == 1
    &&& is_shard_on(s, value, run.inputs[0][0].shard, tile)
}

proof fn lemma_same_shards_read_left(
    s: StateModel,
    value: MidValueId,
    part: RunModel,
    whole: RunModel,
    tile: u16,
)
    requires
        same_shards(part, whole),
        reads_left(s, value, whole, tile),
    ensures
        reads_left(s, value, part, tile),
{
    assert(part.inputs[0].len() == whole.inputs[0].len());
    assert(part.inputs[0][0].shard == whole.inputs[0][0].shard);
}

// ---------------------------------------------------------------- matrices

proof fn lemma_views_keep_shards(
    shards: Seq<ShardModel>,
    views: Seq<ViewModel>,
    shape: Seq<u32>,
    at: Seq<u32>,
    done: Seq<ViewModel>,
    i: int,
)
    requires
        0 <= i <= views.len(),
        done.len() == i,
        forall|k: int| 0 <= k < i ==> (#[trigger] done[k]).shard == views[k].shard,
    ensures
        match matrix_views_from(shards, views, shape, at, done, i) {
            Ok(parts) => parts.len() == views.len() && forall|k: int|
                0 <= k < parts.len() ==> (#[trigger] parts[k]).shard == views[k].shard,
            Err(_) => true,
        },
    decreases views.len() - i,
{
    if i < views.len() {
        if let Ok(view) = matrix_view(shards, views[i], shape, at) {
            lemma_views_keep_shards(shards, views, shape, at, done.push(view), i + 1);
        }
    }
}

/// The first operands use the same shards.
spec fn operands_same(parts: Seq<Seq<ViewModel>>, wholes: Seq<Seq<ViewModel>>) -> bool {
    &&& parts.len() <= wholes.len()
    &&& forall|i: int| 0 <= i < parts.len() ==> (#[trigger] parts[i]).len() == wholes[i].len()
    &&& forall|i: int, k: int|
        0 <= i < parts.len() && 0 <= k < parts[i].len() ==> (#[trigger] parts[i][k]).shard
            == wholes[i][k].shard
}

proof fn lemma_operands_keep_shards(
    shards: Seq<ShardModel>,
    operands: Seq<Seq<ViewModel>>,
    shape: Seq<u32>,
    at: Seq<u32>,
    done: Seq<Seq<ViewModel>>,
    i: int,
)
    requires
        0 <= i <= operands.len(),
        done.len() == i,
        operands_same(done, operands),
    ensures
        match matrix_operands_from(shards, operands, shape, at, done, i) {
            Ok(parts) => parts.len() == operands.len() && operands_same(parts, operands),
            Err(_) => true,
        },
    decreases operands.len() - i,
{
    if i < operands.len() {
        lemma_views_keep_shards(shards, operands[i], shape, at, Seq::empty(), 0);
        if let Ok(views) = matrix_views_from(shards, operands[i], shape, at, Seq::empty(), 0) {
            let more = done.push(views);
            assert forall|j: int, k: int|
                0 <= j < more.len() && 0 <= k < more[j].len() implies (
            #[trigger] more[j][k]).shard == operands[j][k].shard by {
                if j < i {
                    assert(done[j][k].shard == operands[j][k].shard);
                }
            }
            lemma_operands_keep_shards(shards, operands, shape, at, more, i + 1);
        }
    }
}

proof fn lemma_matrix_keeps_shards(shards: Seq<ShardModel>, run: RunModel, at: Seq<u32>)
    ensures
        match matrix_run(shards, run, at) {
            Ok(part) => same_shards(part, run),
            Err(_) => true,
        },
{
    if run.output.shard.0 < shards.len() {
        let shape = shards[run.output.shard.0 as int].tensor_type.shape;
        lemma_operands_keep_shards(shards, run.inputs, shape, at, Seq::empty(), 0);
    }
}

/// All runs use the shards of one.
spec fn all_same(runs: Seq<RunModel>, whole: RunModel) -> bool {
    forall|k: int| 0 <= k < runs.len() ==> same_shards(#[trigger] runs[k], whole)
}

proof fn lemma_below_keeps_shards(
    shards: Seq<ShardModel>,
    run: RunModel,
    axes: nat,
    first: Seq<u32>,
    done: Seq<RunModel>,
)
    requires
        all_same(done, run),
    ensures
        match matrix_runs_below(shards, run, axes, first, done) {
            Ok(runs) => all_same(runs, run),
            Err(_) => true,
        },
    decreases axes - first.len(), 1int, 0int,
{
    if first.len() >= axes {
        lemma_matrix_keeps_shards(shards, run, first);
    } else {
        let extent = run.output.extents[first.len() as int];
        lemma_along_keeps_shards(
            shards,
            run,
            axes,
            first,
            extent.start as int,
            extent.physical_end as int,
            done,
        );
    }
}

proof fn lemma_along_keeps_shards(
    shards: Seq<ShardModel>,
    run: RunModel,
    axes: nat,
    first: Seq<u32>,
    start: int,
    end: int,
    done: Seq<RunModel>,
)
    requires
        all_same(done, run),
    ensures
        match matrix_runs_along(shards, run, axes, first, start, end, done) {
            Ok(runs) => all_same(runs, run),
            Err(_) => true,
        },
    decreases axes - first.len(), 0int, end - start,
{
    if start < end && first.len() < axes {
        let longer = first.push(start as u32);
        lemma_below_keeps_shards(shards, run, axes, longer, done);
        if let Ok(more) = matrix_runs_below(shards, run, axes, longer, done) {
            lemma_along_keeps_shards(shards, run, axes, first, start + 1, end, more);
        }
    }
}

/// The runs that a run is scheduled as use the same shards.
proof fn lemma_scheduled_runs_keep_shards(shards: Seq<ShardModel>, run: RunModel)
    ensures
        all_same(scheduled_runs(shards, run), run),
{
    if crate::kernels::is_batched_product(shards, run) {
        lemma_below_keeps_shards(
            shards,
            run,
            (run.output.extents.len() - 2) as nat,
            Seq::empty(),
            Seq::empty(),
        );
    }
}

// ---------------------------------------------------------------- passes

/// The left operands of a pass, and those of its runs, are where they belong.
spec fn lefts_stand(s: StateModel, plan: GemmPlan, g: GemmModel) -> bool {
    &&& forall|i: int|
        0 <= i < g.left.len() ==> is_shard_on(
            s,
            plan.left,
            (#[trigger] g.left[i]).1.shard,
            g.left[i].0,
        )
    &&& forall|i: int|
        0 <= i < g.runs.len() ==> reads_left(s, plan.left, (#[trigger] g.runs[i]).1, g.runs[i].0)
}

/// Only shards were added, after those that were there.
spec fn adds_shards(s: StateModel, t: StateModel) -> bool {
    &&& t == (StateModel { shards: t.shards, ..s })
    &&& begins(t.shards, s.shards)
}

proof fn lemma_still_stand(s: StateModel, t: StateModel, plan: GemmPlan, g: GemmModel)
    requires
        adds_shards(s, t),
        lefts_stand(s, plan, g),
    ensures
        lefts_stand(t, plan, g),
{
    assert forall|id: LowShardId, tile: u16| is_shard_on(
        s,
        plan.left,
        id,
        tile,
    ) implies #[trigger] is_shard_on(t, plan.left, id, tile) by {
        assert(t.shards[id.0 as int] == s.shards[id.0 as int]);
    }
    assert forall|i: int| 0 <= i < g.left.len() implies is_shard_on(
        t,
        plan.left,
        (#[trigger] g.left[i]).1.shard,
        g.left[i].0,
    ) by {
        assert(is_shard_on(s, plan.left, g.left[i].1.shard, g.left[i].0));
    }
    assert forall|i: int| 0 <= i < g.runs.len() implies reads_left(
        t,
        plan.left,
        (#[trigger] g.runs[i]).1,
        g.runs[i].0,
    ) by {
        assert(reads_left(s, plan.left, g.runs[i].1, g.runs[i].0));
    }
}

proof fn lemma_found_left(left: Seq<(u16, ViewModel)>, tile: u16, i: int)
    requires
        0 <= i,
    ensures
        left_from(left, tile, i) matches Some(view) ==> exists|k: int|
            0 <= k < left.len() && #[trigger] left[k] == (tile, view),
    decreases left.len() - i,
{
    if i < left.len() {
        if left[i].0 == tile {
            assert(left[i] == (tile, left[i].1));
        } else {
            lemma_found_left(left, tile, i + 1);
        }
    }
}

proof fn lemma_left_stands<M: Target>(
    target: &M,
    s: StateModel,
    plan: GemmPlan,
    tile: u16,
    inner: (u32, u32),
    g: GemmModel,
)
    requires
        converted_from(s, plan.left) is None,
        lefts_stand(s, plan, g),
    ensures
        match left_operand(target, s, plan, tile, inner, g) {
            Ok((t, (h, view))) => {
                &&& t == s
                &&& h.runs == g.runs
                &&& lefts_stand(t, plan, h)
                &&& is_shard_on(t, plan.left, view.shard, tile)
            },
            Err(_) => true,
        },
{
    lemma_found_left(g.left, tile, 0);
    lemma_shards_are_found_on_their_tiles(s, plan.left, tile);
    if let Ok((t, (h, view))) = left_operand(target, s, plan, tile, inner, g) {
        if let Some(known) = left_from(g.left, tile, 0) {
            let k = choose|k: int| 0 <= k < g.left.len() && #[trigger] g.left[k] == (tile, known);
            assert(is_shard_on(s, plan.left, g.left[k].1.shard, g.left[k].0));
        } else {
            assert(h.left == g.left.push((tile, view)));
            assert(is_shard_on(s, plan.left, view.shard, tile));
            assert forall|i: int| 0 <= i < h.left.len() implies is_shard_on(
                s,
                plan.left,
                (#[trigger] h.left[i]).1.shard,
                h.left[i].0,
            ) by {
                if i < g.left.len() {
                    assert(h.left[i] == g.left[i]);
                }
            }
            assert(h.runs == g.runs);
        }
    }
}

proof fn lemma_right_adds_shards<M: Target>(
    target: &M,
    s: StateModel,
    plan: GemmPlan,
    interleaved: bool,
    tile: u16,
    column: u32,
    right: LowShardId,
    view: ViewModel,
    g: GemmModel,
)
    ensures
        match resident_right(target, s, plan, interleaved, tile, column, right, view, g) {
            Ok((t, (h, _))) => adds_shards(s, t) && h.left == g.left && h.runs == g.runs,
            Err(_) => true,
        },
{
}

proof fn lemma_output_stands<M: Target>(
    target: &M,
    s: StateModel,
    plan: GemmPlan,
    kernels: GemmKernels,
    candidates: Seq<LowShardId>,
    interleaved: bool,
    output: LowShardId,
    inner: (u32, u32),
    columns: (u32, u32),
    g: GemmModel,
)
    requires
        converted_from(s, plan.left) is None,
        lefts_stand(s, plan, g),
    ensures
        match gemm_output(
            target,
            s,
            plan,
            kernels,
            candidates,
            interleaved,
            output,
            inner,
            columns,
            g,
        ) {
            Ok((t, h)) => adds_shards(s, t) && lefts_stand(t, plan, h),
            Err(_) => true,
        },
{
    if let Ok((t, h)) = gemm_output(
        target,
        s,
        plan,
        kernels,
        candidates,
        interleaved,
        output,
        inner,
        columns,
        g,
    ) {
        let tile = s.shards[output.0 as int].tile;
        lemma_left_stands(target, s, plan, tile, inner, g);
        let (a, (some, left)) = left_operand(target, s, plan, tile, inner, g)->Ok_0;
        let right = prefer_local(a.shards, candidates, tile)->Some_0;
        let view = right_block(a.shards, right, columns, inner)->Ok_0;
        lemma_right_adds_shards(
            target,
            a,
            plan,
            interleaved,
            tile,
            columns.0,
            right,
            view,
            some,
        );
        let (b, (more, weights)) = resident_right(
            target,
            a,
            plan,
            interleaved,
            tile,
            columns.0,
            right,
            view,
            some,
        )->Ok_0;
        assert(t == b);
        lemma_still_stand(s, t, plan, some);
        assert(t.shards[left.shard.0 as int] == s.shards[left.shard.0 as int]);
        assert(is_shard_on(t, plan.left, left.shard, tile));
        assert(h.left == some.left);
        assert(h.runs.len() == some.runs.len() + 1);
        assert forall|i: int| 0 <= i < h.runs.len() implies reads_left(
            t,
            plan.left,
            (#[trigger] h.runs[i]).1,
            h.runs[i].0,
        ) by {
            if i < some.runs.len() {
                assert(h.runs[i] == some.runs[i]);
            } else {
                assert(h.runs[i].1.inputs == seq![seq![left], seq![weights]]);
                assert(h.runs[i].0 == tile);
            }
        }
    }
}

proof fn lemma_adds_shards_on(a: StateModel, b: StateModel, c: StateModel)
    requires
        adds_shards(a, b),
        adds_shards(b, c),
    ensures
        adds_shards(a, c),
{
    assert forall|i: int| 0 <= i < a.shards.len() implies #[trigger] c.shards[i] == a.shards[i] by {
        assert(b.shards[i] == a.shards[i]);
    }
}

proof fn lemma_outputs_stand<M: Target>(
    target: &M,
    s: StateModel,
    plan: GemmPlan,
    kernels: GemmKernels,
    candidates: Seq<LowShardId>,
    interleaved: bool,
    outputs: Seq<LowShardId>,
    inner: (u32, u32),
    columns: (u32, u32),
    k: int,
    g: GemmModel,
)
    requires
        converted_from(s, plan.left) is None,
        lefts_stand(s, plan, g),
    ensures
        match gemm_outputs_from(
            target,
            s,
            plan,
            kernels,
            candidates,
            interleaved,
            outputs,
            inner,
            columns,
            k,
            g,
        ) {
            Ok((t, h)) => adds_shards(s, t) && lefts_stand(t, plan, h),
            Err(_) => true,
        },
    decreases outputs.len() - k,
{
    if k < outputs.len() {
        lemma_output_stands(
            target,
            s,
            plan,
            kernels,
            candidates,
            interleaved,
            outputs[k],
            inner,
            columns,
            g,
        );
        if let Ok((next, more)) = gemm_output(
            target,
            s,
            plan,
            kernels,
            candidates,
            interleaved,
            outputs[k],
            inner,
            columns,
            g,
        ) {
            lemma_outputs_stand(
                target,
                next,
                plan,
                kernels,
                candidates,
                interleaved,
                outputs,
                inner,
                columns,
                k + 1,
                more,
            );
            if let Ok((t, _)) = gemm_outputs_from(
                target,
                next,
                plan,
                kernels,
                candidates,
                interleaved,
                outputs,
                inner,
                columns,
                k + 1,
                more,
            ) {
                lemma_adds_shards_on(s, next, t);
            }
        }
    }
}

proof fn lemma_columns_stand<M: Target>(
    target: &M,
    s: StateModel,
    plan: GemmPlan,
    kernels: GemmKernels,
    rights: Seq<LowShardId>,
    outputs: Seq<LowShardId>,
    inner: (u32, u32),
    c: int,
    g: GemmModel,
)
    requires
        converted_from(s, plan.left) is None,
        lefts_stand(s, plan, g),
    ensures
        match gemm_columns_from(target, s, plan, kernels, rights, outputs, inner, c, g) {
            Ok((t, h)) => adds_shards(s, t) && lefts_stand(t, plan, h),
            Err(_) => true,
        },
    decreases plan.column_blocks - c,
{
    if c < plan.column_blocks {
        let columns = block_range(c, plan.column_block);
        let candidates = right_shards_from(s.shards, rights, columns, inner, 0, Seq::empty());
        let users = column_outputs_from(s.shards, outputs, columns, 0, Seq::empty());
        if let Ok(interleaved) = column_interleaved(
            target,
            s.shards,
            plan,
            rights,
            users,
            columns,
        ) {
            lemma_outputs_stand(
                target,
                s,
                plan,
                kernels,
                candidates,
                interleaved,
                users,
                inner,
                columns,
                0,
                g,
            );
        }
        if let Ok((next, more)) = gemm_column(
            target,
            s,
            plan,
            kernels,
            rights,
            outputs,
            inner,
            columns,
            g,
        ) {
            lemma_columns_stand(
                target,
                next,
                plan,
                kernels,
                rights,
                outputs,
                inner,
                c + 1,
                more,
            );
            if let Ok((t, _)) = gemm_columns_from(
                target,
                next,
                plan,
                kernels,
                rights,
                outputs,
                inner,
                c + 1,
                more,
            ) {
                lemma_adds_shards_on(s, next, t);
            }
        }
    }
}

// ---------------------------------------------------------------- schedules

/// A run of the schedule reads the left operand on the tile that makes it.
pub open spec fn left_read(
    s: StateModel,
    t: StateModel,
    value: MidValueId,
    r: int,
) -> bool {
    exists|tile: u16|
        #[trigger] schedules(t, tile, TileWork::Kernel(KernelRunId(r as u32))) && reads_left(
            s,
            value,
            t.kernel_runs[r],
            tile,
        )
}

/// All new runs read the left operand.
spec fn new_read_left(s: StateModel, a: StateModel, t: StateModel, value: MidValueId) -> bool {
    forall|r: int|
        a.kernel_runs.len() <= r < t.kernel_runs.len() ==> #[trigger] left_read(s, t, value, r)
}

/// The lists of one schedule begin those of another, and so do its runs.
spec fn goes_on(s: StateModel, t: StateModel) -> bool {
    &&& begins(t.kernel_runs, s.kernel_runs)
    &&& begins(t.shards, s.shards)
    &&& t.canonical == s.canonical
    &&& t.deferred_conversions == s.deferred_conversions
    &&& t.tiles.len() == s.tiles.len()
    &&& forall|i: int|
        0 <= i < s.tiles.len() ==> begins((#[trigger] t.tiles[i]).work, s.tiles[i].work)
}

proof fn lemma_goes_on(a: StateModel, b: StateModel, c: StateModel)
    requires
        goes_on(a, b),
        goes_on(b, c),
    ensures
        goes_on(a, c),
{
    assert forall|r: int| 0 <= r < a.kernel_runs.len() implies #[trigger] c.kernel_runs[r]
        == a.kernel_runs[r] by {
        assert(b.kernel_runs[r] == a.kernel_runs[r]);
    }
    assert forall|r: int| 0 <= r < a.shards.len() implies #[trigger] c.shards[r] == a.shards[r] by {
        assert(b.shards[r] == a.shards[r]);
    }
    assert forall|i: int| 0 <= i < a.tiles.len() implies begins(
        (#[trigger] c.tiles[i]).work,
        a.tiles[i].work,
    ) by {
        assert(begins(c.tiles[i].work, b.tiles[i].work));
        assert(begins(b.tiles[i].work, a.tiles[i].work));
        assert forall|w: int| 0 <= w < a.tiles[i].work.len() implies #[trigger] c.tiles[i].work[w]
            == a.tiles[i].work[w] by {
            assert(b.tiles[i].work[w] == a.tiles[i].work[w]);
        }
    }
}

proof fn lemma_still_read(
    s: StateModel,
    a: StateModel,
    b: StateModel,
    c: StateModel,
    value: MidValueId,
)
    requires
        new_read_left(s, a, b, value),
        new_read_left(s, b, c, value),
        goes_on(b, c),
    ensures
        new_read_left(s, a, c, value),
{
    assert forall|r: int| a.kernel_runs.len() <= r < c.kernel_runs.len() implies #[trigger] left_read(
        s,
        c,
        value,
        r,
    ) by {
        if r < b.kernel_runs.len() {
            assert(left_read(s, b, value, r));
            let work = TileWork::Kernel(KernelRunId(r as u32));
            let tile = choose|tile: u16| #[trigger]
                schedules(b, tile, work) && reads_left(s, value, b.kernel_runs[r], tile);
            let list = b.tiles[tile as int].work;
            let w = choose|w: int| 0 <= w < list.len() && list[w] == work;
            assert(begins(c.tiles[tile as int].work, list));
            assert(c.tiles[tile as int].work[w] == work);
            assert(schedules(c, tile, work));
            assert(c.kernel_runs[r] == b.kernel_runs[r]);
        }
    }
}

proof fn lemma_single_kernels_go_on(s: StateModel, tile: u16, runs: Seq<RunModel>, i: int)
    ensures
        match crate::state::append_single_kernels_from(s, tile, runs, i) {
            Ok(t) => goes_on(s, t) && t.shards == s.shards,
            Err(_) => true,
        },
    decreases runs.len() - i,
{
    if i < runs.len() {
        if let Ok(next) = crate::state::append_single_kernel(s, tile, runs[i]) {
            assert(goes_on(s, next));
            lemma_single_kernels_go_on(next, tile, runs, i + 1);
            if let Ok(t) = crate::state::append_single_kernels_from(next, tile, runs, i + 1) {
                lemma_goes_on(s, next, t);
            }
        }
    }
}

proof fn lemma_kernel_reads_left(
    s: StateModel,
    a: StateModel,
    tile: u16,
    run: RunModel,
    value: MidValueId,
)
    requires
        reads_left(s, value, run, tile),
    ensures
        match append_kernel(a, tile, run) {
            Ok(t) => goes_on(a, t) && t.shards == a.shards && new_read_left(s, a, t, value),
            Err(_) => true,
        },
{
    if let Ok(t) = append_kernel(a, tile, run) {
        let runs = scheduled_runs(a.shards, run);
        let at = a.kernel_runs.len() as int;
        lemma_single_kernels_go_on(a, tile, runs, 0);
        assert(goes_on(a, t) && t.shards == a.shards);
        lemma_append_run(a, tile, run);
        lemma_run_count(a, tile, run);
        lemma_scheduled_runs_keep_shards(a.shards, run);
        assert(makes_at(t, a.shards, run, tile, at));
        assert(runs_at(t, runs, tile, at));
        assert forall|r: int| at <= r < t.kernel_runs.len() implies #[trigger] left_read(
            s,
            t,
            value,
            r,
        ) by {
            let i = r - at;
            assert(t.kernel_runs[at + i] == runs[i]);
            assert(same_shards(runs[i], run));
            lemma_same_shards_read_left(s, value, runs[i], run, tile);
            assert(schedules(t, tile, TileWork::Kernel(KernelRunId((at + i) as u32))));
        }
    }
}

proof fn lemma_kernels_read_left(
    s: StateModel,
    a: StateModel,
    runs: Seq<(u16, RunModel)>,
    i: int,
    value: MidValueId,
)
    requires
        0 <= i,
        forall|k: int|
            0 <= k < runs.len() ==> reads_left(s, value, (#[trigger] runs[k]).1, runs[k].0),
    ensures
        match append_kernels_from(a, runs, i) {
            Ok(t) => goes_on(a, t) && t.shards == a.shards && new_read_left(s, a, t, value),
            Err(_) => true,
        },
    decreases runs.len() - i,
{
    if i < runs.len() {
        lemma_kernel_reads_left(s, a, runs[i].0, runs[i].1, value);
        if let Ok(next) = append_kernel(a, runs[i].0, runs[i].1) {
            lemma_kernels_read_left(s, next, runs, i + 1, value);
            if let Ok(t) = append_kernels_from(next, runs, i + 1) {
                lemma_goes_on(a, next, t);
                lemma_still_read(s, a, next, t, value);
            }
        }
    }
}

proof fn lemma_copies_go_on(s: StateModel, copies: Seq<(u16, LocalCopy)>, i: int)
    ensures
        match append_copies_from(s, copies, i) {
            Ok(t) => goes_on(s, t) && t.kernel_runs == s.kernel_runs && t.shards == s.shards,
            Err(_) => true,
        },
    decreases copies.len() - i,
{
    if i < copies.len() {
        if let Ok(next) = append_local_copy(s, copies[i].0, copies[i].1) {
            assert(goes_on(s, next));
            lemma_copies_go_on(next, copies, i + 1);
            if let Ok(t) = append_copies_from(next, copies, i + 1) {
                lemma_goes_on(s, next, t);
            }
        }
    }
}

proof fn lemma_pass_reads_left<M: Target>(
    target: &M,
    s: StateModel,
    plan: GemmPlan,
    kernels: GemmKernels,
    rights: Seq<LowShardId>,
    outputs: Seq<LowShardId>,
    k: int,
    local: Seq<Staged>,
    remote: Seq<Staged>,
)
    requires
        converted_from(s, plan.left) is None,
    ensures
        match gemm_pass(target, s, plan, kernels, rights, outputs, k, local, remote) {
            Ok((t, _)) => goes_on(s, t) && new_read_left(t, s, t, plan.left),
            Err(_) => true,
        },
{
    if let Ok((d, _)) = gemm_pass(
        target,
        s,
        plan,
        kernels,
        rights,
        outputs,
        k,
        local,
        remote,
    ) {
        let inner = block_range(k, plan.inner_block);
        let fresh = fresh_pass(local, remote);
        lemma_columns_stand(target, s, plan, kernels, rights, outputs, inner, 0, fresh);
        let (a, g) = gemm_columns_from(
            target,
            s,
            plan,
            kernels,
            rights,
            outputs,
            inner,
            0,
            fresh,
        )->Ok_0;
        let b = append_ordered_phase(
            a,
            g.transfers,
            pass_provenance(a, plan),
            ExchangeOrder::Semantic,
        )->Ok_0;
        let c = append_copies_from(b, g.copies, 0)->Ok_0;
        assert(goes_on(s, a));
        assert(goes_on(a, b));
        lemma_copies_go_on(b, g.copies, 0);
        lemma_goes_on(s, a, b);
        lemma_goes_on(s, b, c);
        lemma_kernels_read_left(a, c, g.runs, 0, plan.left);
        lemma_goes_on(s, c, d);
        assert(c.kernel_runs == s.kernel_runs);
        assert forall|r: int| s.kernel_runs.len() <= r < d.kernel_runs.len() implies #[trigger] left_read(
            d,
            d,
            plan.left,
            r,
        ) by {
            assert(left_read(a, d, plan.left, r));
        }
    }
}

/// What is read on a tile is still there in a schedule with more shards.
proof fn lemma_read_later(s: StateModel, t: StateModel, u: StateModel, value: MidValueId, r: int)
    requires
        left_read(s, u, value, r),
        goes_on(s, t),
    ensures
        left_read(t, u, value, r),
{
    let tile = choose|tile: u16| #[trigger]
        schedules(u, tile, TileWork::Kernel(KernelRunId(r as u32))) && reads_left(
            s,
            value,
            u.kernel_runs[r],
            tile,
        );
    let id = u.kernel_runs[r].inputs[0][0].shard;
    assert(t.shards[id.0 as int] == s.shards[id.0 as int]);
    assert(reads_left(t, value, u.kernel_runs[r], tile));
}

proof fn lemma_passes_read_left<M: Target>(
    target: &M,
    s: StateModel,
    plan: GemmPlan,
    kernels: GemmKernels,
    rights: Seq<LowShardId>,
    outputs: Seq<LowShardId>,
    k: int,
    local: Seq<Staged>,
    remote: Seq<Staged>,
)
    requires
        converted_from(s, plan.left) is None,
    ensures
        match gemm_passes_from(target, s, plan, kernels, rights, outputs, k, local, remote) {
            Ok(t) => goes_on(s, t) && new_read_left(t, s, t, plan.left),
            Err(_) => true,
        },
    decreases plan.inner_blocks - k,
{
    if k < plan.inner_blocks {
        lemma_pass_reads_left(target, s, plan, kernels, rights, outputs, k, local, remote);
        if let Ok((next, (more_local, more_remote))) = gemm_pass(
            target,
            s,
            plan,
            kernels,
            rights,
            outputs,
            k,
            local,
            remote,
        ) {
            lemma_passes_read_left(
                target,
                next,
                plan,
                kernels,
                rights,
                outputs,
                k + 1,
                more_local,
                more_remote,
            );
            if let Ok(t) = gemm_passes_from(
                target,
                next,
                plan,
                kernels,
                rights,
                outputs,
                k + 1,
                more_local,
                more_remote,
            ) {
                lemma_goes_on(s, next, t);
                assert(new_read_left(t, s, next, plan.left)) by {
                    assert forall|r: int|
                        s.kernel_runs.len() <= r < next.kernel_runs.len() implies #[trigger] left_read(
                        t,
                        next,
                        plan.left,
                        r,
                    ) by {
                        assert(left_read(next, next, plan.left, r));
                        lemma_read_later(next, t, next, plan.left, r);
                    }
                }
                lemma_still_read(t, s, next, t, plan.left);
            }
        }
    }
}

/// Every run that a product with its outputs in place schedules has two
/// operands, and the first is read in the shard that the operation's first input
/// has on the tile of the run, unless the conversion to that input is deferred.
pub proof fn lemma_products_read_their_left_operand<M: Target>(
    target: &M,
    s: StateModel,
    operation: MidOperation,
    kernels: GemmKernels,
    inner_block: u32,
    column_block: u32,
    orientation: GemmOrientation,
    r: int,
)
    requires
        operation.inputs@.len() == 2 ==> converted_from(s, operation.inputs@[0]) is None,
    ensures
        match lower_blocked_gemm(
            target,
            s,
            operation,
            kernels,
            inner_block,
            column_block,
            orientation,
            GemmDistribution::OutputStationary,
        ) {
            Ok(t) => s.kernel_runs.len() <= r < t.kernel_runs.len() ==> left_read(
                t,
                t,
                operation.inputs@[0],
                r,
            ),
            Err(_) => true,
        },
{
    if let Ok(t) = lower_blocked_gemm(
        target,
        s,
        operation,
        kernels,
        inner_block,
        column_block,
        orientation,
        GemmDistribution::OutputStationary,
    ) {
        let plan = choose|plan: GemmPlan|
            plan.left == operation.inputs@[0] && #[trigger] gemm_passes_from(
                target,
                s,
                plan,
                kernels,
                s.canonical[operation.inputs@[1].0 as int],
                s.canonical[operation.results@[0].0 as int],
                0,
                Seq::empty(),
                Seq::empty(),
            ) == Ok::<StateModel, crate::low::LowLoweringError>(t);
        lemma_passes_read_left(
            target,
            s,
            plan,
            kernels,
            s.canonical[operation.inputs@[1].0 as int],
            s.canonical[operation.results@[0].0 as int],
            0,
            Seq::empty(),
            Seq::empty(),
        );
    }
}

} // verus!
