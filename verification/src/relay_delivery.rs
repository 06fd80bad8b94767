//! Relays bring every element to where it was sent without them.

use crate::blocks::{BlockExchangeModel, BlockTarget, BuilderModel};
use crate::carriage::begins;
use crate::low::{LowShardId, ShardModel, ViewModel};
use crate::order::{groups_insert, lemma_slot_bounds, slot_from, GroupModel};
use crate::product_coverage::lemma_begins_on;
use crate::relay::{
    can_gather, chains_from, common_extent, common_part, gather_all_from, gather_panel,
    gather_panels_from, gather_plans_from, gatherable_from, gathered, kept_from, panel_parts_from,
    panel_views, panel_width, part_along, part_at_from, parts_from, place_from, receives_alike,
    rectangle_bytes_from, same_rectangles, sorted_ids_from, split_along_from, split_outer_from,
    without_row_padding, GatherPlan, Gathered,
};
use crate::tensor::{ShardExtent, TypeModel};
use vstd::arithmetic::div_mod::{
    lemma_mod_sub_multiples_vanish, lemma_small_mod, lemma_sub_mod_noop,
};
use vstd::prelude::*;

verus! {

/// The coordinates lie in the rectangle.
pub open spec fn in_rectangle(extents: Seq<ShardExtent>, at: Seq<int>) -> bool {
    &&& at.len() == extents.len()
    &&& forall|i: int|
        0 <= i < extents.len() ==> (#[trigger] extents[i]).start <= at[i] < extents[i].physical_end
}

/// The rectangle is one element wide on the axes before `end`.
pub open spec fn is_single_below(extents: Seq<ShardExtent>, end: int) -> bool {
    forall|i: int|
        0 <= i < end ==> (#[trigger] extents[i]).physical_end == extents[i].start + 1
}

/// All views have a rank, and are one element wide on the axes before `end`.
pub open spec fn all_single_below(views: Seq<Seq<ShardExtent>>, rank: nat, end: int) -> bool {
    forall|i: int|
        0 <= i < views.len() ==> (#[trigger] views[i]).len() == rank && is_single_below(
            views[i],
            end,
        )
}

// ---------------------------------------------------------------- panels

proof fn lemma_parts_are_single(
    view: Seq<ShardExtent>,
    axis: int,
    start: int,
    step: int,
    done: Seq<Seq<ShardExtent>>,
    end: int,
)
    requires
        0 <= start,
        0 <= axis < view.len(),
        end <= view.len(),
        is_single_below(view, if axis < end {
            axis
        } else {
            end
        }),
        axis < end ==> step == 1 && end == axis + 1,
        all_single_below(done, view.len(), end),
    ensures
        all_single_below(parts_from(view, axis, start, step, done), view.len(), end),
    decreases
            (if start < view[axis].logical_end {
                view[axis].logical_end - start
            } else {
                0
            }),
{
    if start < view[axis].logical_end && step > 0 {
        lemma_parts_are_single(
            view,
            axis,
            start + step,
            step,
            done.push(part_along(view, axis, start, step)),
            end,
        );
    }
}

proof fn lemma_split_is_single(
    views: Seq<Seq<ShardExtent>>,
    axis: int,
    step: int,
    i: int,
    done: Seq<Seq<ShardExtent>>,
    rank: nat,
    end: int,
)
    requires
        0 <= i,
        0 <= axis < rank,
        end <= rank,
        all_single_below(views, rank, if axis < end {
            axis
        } else {
            end
        }),
        axis < end ==> step == 1 && end == axis + 1,
        all_single_below(done, rank, end),
    ensures
        all_single_below(split_along_from(views, axis, step, i, done), rank, end),
    decreases views.len() - i,
{
    if i < views.len() {
        lemma_parts_are_single(views[i], axis, views[i][axis].start as int, step, done, end);
        lemma_split_is_single(
            views,
            axis,
            step,
            i + 1,
            parts_from(views[i], axis, views[i][axis].start as int, step, done),
            rank,
            end,
        );
    }
}

proof fn lemma_outer_split_is_single(
    views: Seq<Seq<ShardExtent>>,
    axis: int,
    end: int,
    rank: nat,
)
    requires
        0 <= axis <= end < rank,
        all_single_below(views, rank, axis),
    ensures
        all_single_below(split_outer_from(views, axis, end), rank, end),
    decreases end - axis,
{
    if axis < end {
        lemma_split_is_single(views, axis, 1, 0, Seq::empty(), rank, axis + 1);
        lemma_outer_split_is_single(
            split_along_from(views, axis, 1, 0, Seq::empty()),
            axis + 1,
            end,
            rank,
        );
    }
}

/// A panel is a part of one matrix.
pub proof fn lemma_panels_are_single<M: BlockTarget>(target: &M, block: ShardModel)
    ensures
        match panel_views(target, block) {
            Some(panels) => all_single_below(
                panels,
                block.extents.len(),
                block.extents.len() - 2,
            ),
            None => true,
        },
{
    let rank = block.extents.len();
    if let Some(panels) = panel_views(target, block) {
        let width = panel_width(target, block)->Some_0;
        let whole = seq![block.extents];
        assert(all_single_below(whole, rank, 0));
        lemma_outer_split_is_single(whole, 0, rank - 2, rank);
        let matrices = split_outer_from(whole, 0, rank - 2);
        lemma_split_is_single(
            matrices,
            rank - 1,
            width as int,
            0,
            Seq::empty(),
            rank,
            rank - 2,
        );
        let split = split_along_from(matrices, rank - 1, width as int, 0, Seq::empty());
        assert forall|i: int| 0 <= i < panels.len() implies (#[trigger] panels[i]).len() == rank
            && is_single_below(panels[i], rank - 2) by {
            assert(panels[i] == without_row_padding(split[i]));
            assert(is_single_below(split[i], rank - 2));
        }
    }
}

// ---------------------------------------------------------------- parts

/// The exchange brings a part of a panel to a block, from where one of the
/// exchanges would have sent it.
pub open spec fn brings(
    transfers: Seq<BlockExchangeModel>,
    indices: Seq<usize>,
    panel: Seq<ShardExtent>,
    id: LowShardId,
    part: BlockExchangeModel,
) -> bool {
    &&& part.destinations == seq![ViewModel { shard: id, extents: part.source.extents }]
    &&& exists|j: int| #[trigger]
        is_part_of(transfers, indices, panel, part, j)
}

pub open spec fn is_part_of(
    transfers: Seq<BlockExchangeModel>,
    indices: Seq<usize>,
    panel: Seq<ShardExtent>,
    part: BlockExchangeModel,
    j: int,
) -> bool {
    &&& 0 <= j < indices.len()
    &&& part.source.shard == transfers[indices[j] as int].source.shard
    &&& common_part(transfers[indices[j] as int].source.extents, panel) == Some(
        part.source.extents,
    )
}

proof fn lemma_parts_bring(
    transfers: Seq<BlockExchangeModel>,
    indices: Seq<usize>,
    panel: Seq<ShardExtent>,
    width: int,
    id: LowShardId,
    i: int,
    covered: int,
    done: Seq<BlockExchangeModel>,
)
    requires
        0 <= i,
        forall|k: int|
            0 <= k < done.len() ==> brings(transfers, indices, panel, id, #[trigger] done[k]),
    ensures
        match panel_parts_from(transfers, indices, panel, width, id, i, covered, done) {
            Ok((_, parts)) => forall|k: int|
                0 <= k < parts.len() ==> brings(transfers, indices, panel, id, #[trigger] parts[k]),
            Err(_) => true,
        },
    decreases indices.len() - i,
{
    if i < indices.len() {
        let whole = transfers[indices[i] as int];
        match common_part(whole.source.extents, panel) {
            None => {
                lemma_parts_bring(transfers, indices, panel, width, id, i + 1, covered, done);
            },
            Some(part) => {
                let exchange = BlockExchangeModel {
                    source: ViewModel { shard: whole.source.shard, extents: part },
                    destinations: seq![ViewModel { shard: id, extents: part }],
                    order: whole.order,
                };
                assert(is_part_of(transfers, indices, panel, exchange, i));
                if let Ok(bytes) = rectangle_bytes_from(part, 0, width) {
                    lemma_parts_bring(
                        transfers,
                        indices,
                        panel,
                        width,
                        id,
                        i + 1,
                        covered + bytes,
                        done.push(exchange),
                    );
                }
            },
        }
    }
}

proof fn lemma_part_at(
    parts: Seq<BlockExchangeModel>,
    panel: Seq<ShardExtent>,
    end: u32,
    i: int,
)
    requires
        0 <= i,
    ensures
        match part_at_from(parts, panel, end, i) {
            Some(k) => {
                &&& 0 <= k < parts.len()
                &&& parts[k].source.extents[panel.len() - 2].start == end
                &&& parts[k].source.extents[panel.len() - 1] == panel[panel.len() - 1]
            },
            None => true,
        },
    decreases parts.len() - i,
{
    if i < parts.len() {
        lemma_part_at(parts, panel, end, i + 1);
    }
}

/// One of the parts has the row, in the full width of the panel.
pub open spec fn has_row(
    parts: Seq<BlockExchangeModel>,
    panel: Seq<ShardExtent>,
    row: int,
    k: int,
) -> bool {
    &&& 0 <= k < parts.len()
    &&& parts[k].source.extents[panel.len() - 2].start <= row
        < parts[k].source.extents[panel.len() - 2].physical_end
    &&& parts[k].source.extents[panel.len() - 1] == panel[panel.len() - 1]
}

proof fn lemma_chain_has_rows(
    parts: Seq<BlockExchangeModel>,
    panel: Seq<ShardExtent>,
    end: u32,
    count: int,
    row: int,
)
    requires
        chains_from(parts, panel, end, count),
        end <= row < panel[panel.len() - 2].physical_end,
    ensures
        exists|k: int| has_row(parts, panel, row, k),
    decreases count,
{
    if count > 0 {
        lemma_part_at(parts, panel, end, 0);
        let k = part_at_from(parts, panel, end, 0)->Some_0;
        let next = parts[k].source.extents[panel.len() - 2].physical_end;
        if row < next {
            assert(has_row(parts, panel, row, k));
        } else {
            lemma_chain_has_rows(parts, panel, next, count - 1, row);
        }
    }
}

/// Where an element of a panel comes from: one exchange brings it to the relay,
/// at the same coordinates, from the block that one of the replaced exchanges
/// sends it from.
pub open spec fn arrives(
    transfers: Seq<BlockExchangeModel>,
    indices: Seq<usize>,
    parts: Seq<BlockExchangeModel>,
    id: LowShardId,
    at: Seq<int>,
    k: int,
    j: int,
) -> bool {
    &&& 0 <= k < parts.len()
    &&& 0 <= j < indices.len()
    &&& in_rectangle(parts[k].source.extents, at)
    &&& parts[k].destinations == seq![ViewModel { shard: id, extents: parts[k].source.extents }]
    &&& parts[k].source.shard == transfers[indices[j] as int].source.shard
    &&& in_rectangle(transfers[indices[j] as int].source.extents, at)
}

/// A relay receives every element of its panel, from where the exchanges that
/// it replaces would have sent it, and forwards the panel to all their
/// receivers.
pub proof fn lemma_relays_deliver<M: BlockTarget>(
    target: &M,
    s: BuilderModel,
    transfers: Seq<BlockExchangeModel>,
    plan: GatherPlan,
    receiver: TypeModel,
    panel: Seq<ShardExtent>,
    w: Gathered,
    at: Seq<int>,
)
    requires
        panel.len() >= 2,
        is_single_below(panel, panel.len() - 2),
        in_rectangle(panel, at),
    ensures
        match gather_panel(target, s, transfers, plan, receiver, panel, w) {
            Ok((t, more)) => {
                let id = LowShardId(s.shards.len() as u32);
                let parts = more.gather.skip(w.gather.len() as int);
                let forward = more.forward.last();
                &&& more.gather == w.gather + parts
                &&& exists|k: int, j: int|
                    arrives(transfers, plan.transfers, parts, id, at, k, j)
                &&& forward.source == (ViewModel { shard: id, extents: panel })
                &&& forward.destinations.len() == plan.receivers.len()
                &&& forall|i: int|
                    0 <= i < plan.receivers.len() ==> #[trigger] forward.destinations[i] == (
                    ViewModel { shard: LowShardId(plan.receivers[i]), extents: panel })
            },
            Err(_) => true,
        },
{
    if let Ok((t, more)) = gather_panel(target, s, transfers, plan, receiver, panel, w) {
        let id = LowShardId(s.shards.len() as u32);
        let width = receiver.format.precision.spec_bytes() as int;
        lemma_parts_bring(transfers, plan.transfers, panel, width, id, 0, 0, Seq::empty());
        let (covered, parts) = panel_parts_from(
            transfers,
            plan.transfers,
            panel,
            width,
            id,
            0,
            0,
            Seq::empty(),
        )->Ok_0;
        assert(more.gather == w.gather + parts);
        assert(more.gather.skip(w.gather.len() as int) =~= parts);
        let row = panel.len() - 2;
        lemma_chain_has_rows(parts, panel, panel[row].start, parts.len() as int, at[row]);
        let k = choose|k: int| has_row(parts, panel, at[row], k);
        assert(brings(transfers, plan.transfers, panel, id, parts[k]));
        let j = choose|j: int| #[trigger]
            is_part_of(transfers, plan.transfers, panel, parts[k], j);
        let whole = transfers[plan.transfers[j] as int].source.extents;
        let part = parts[k].source.extents;
        assert forall|i: int| 0 <= i < part.len() implies (#[trigger] part[i]).start <= at[i]
            < part[i].physical_end && whole[i].start <= at[i] < whole[i].physical_end by {
            assert(part[i] == common_extent(whole[i], panel[i]));
            assert(common_extent(whole[i], panel[i]).start < common_extent(
                whole[i],
                panel[i],
            ).physical_end);
            assert(panel[i].start <= at[i] < panel[i].physical_end);
            if i < row {
                assert(panel[i].physical_end == panel[i].start + 1);
            }
        }
        assert(in_rectangle(part, at));
        assert(in_rectangle(whole, at)) by {
            assert forall|i: int| 0 <= i < whole.len() implies (#[trigger] whole[i]).start
                <= at[i] < whole[i].physical_end by {
                assert(part[i].start <= at[i]);
            }
        }
        assert(arrives(transfers, plan.transfers, parts, id, at, k, j));
    }
}

// ---------------------------------------------------------------- coverage

/// The coordinates are those of an element of the rectangle that is no padding.
pub open spec fn in_logical(extents: Seq<ShardExtent>, at: Seq<int>) -> bool {
    &&& at.len() == extents.len()
    &&& forall|i: int|
        0 <= i < extents.len() ==> (#[trigger] extents[i]).start <= at[i] < extents[i].logical_end
}

/// The rectangle has the element, and no padding on the axes before `end`. Its
/// columns are the given ones, or have no padding either.
spec fn holds_on(
    view: Seq<ShardExtent>,
    at: Seq<int>,
    end: int,
    columns: Option<ShardExtent>,
) -> bool {
    &&& in_logical(view, at)
    &&& forall|i: int|
        0 <= i < end ==> (#[trigger] view[i]).logical_end == view[i].physical_end
    &&& match columns {
        Some(columns) => view[view.len() - 1] == columns,
        None => view[view.len() - 1].logical_end == view[view.len() - 1].physical_end,
    }
}

/// One of the rectangles has the element.
spec fn some_holds(
    views: Seq<Seq<ShardExtent>>,
    at: Seq<int>,
    end: int,
    columns: Option<ShardExtent>,
) -> bool {
    exists|i: int| 0 <= i < views.len() && #[trigger] holds_on(views[i], at, end, columns)
}

proof fn lemma_parts_begin(
    view: Seq<ShardExtent>,
    axis: int,
    start: int,
    step: int,
    done: Seq<Seq<ShardExtent>>,
)
    ensures
        begins(parts_from(view, axis, start, step, done), done),
    decreases
            (if start < view[axis].logical_end {
                view[axis].logical_end - start
            } else {
                0
            }),
{
    if start < view[axis].logical_end && step > 0 {
        let more = done.push(part_along(view, axis, start, step));
        lemma_parts_begin(view, axis, start + step, step, more);
        lemma_begins_on(done, more, parts_from(view, axis, start, step, done));
    }
}

proof fn lemma_split_begins(
    views: Seq<Seq<ShardExtent>>,
    axis: int,
    step: int,
    i: int,
    done: Seq<Seq<ShardExtent>>,
)
    ensures
        begins(split_along_from(views, axis, step, i, done), done),
    decreases views.len() - i,
{
    if i < views.len() {
        let more = parts_from(views[i], axis, views[i][axis].start as int, step, done);
        lemma_parts_begin(views[i], axis, views[i][axis].start as int, step, done);
        lemma_split_begins(views, axis, step, i + 1, more);
        lemma_begins_on(done, more, split_along_from(views, axis, step, i, done));
    }
}

/// What is left of a range that is divided into steps is a step at least.
proof fn lemma_whole_steps(length: int, step: int)
    requires
        0 < length,
        0 < step,
        length % step == 0,
    ensures
        step <= length,
        (length - step) % step == 0,
{
    if length < step {
        lemma_small_mod(length as nat, step as nat);
    }
    lemma_mod_sub_multiples_vanish(length, step);
}

proof fn lemma_parts_hold(
    view: Seq<ShardExtent>,
    axis: int,
    start: int,
    step: int,
    done: Seq<Seq<ShardExtent>>,
    at: Seq<int>,
    columns: ShardExtent,
    last: bool,
)
    requires
        0 <= axis < view.len(),
        if last {
            axis == view.len() - 1 && holds_on(view, at, view.len() - 2, Some(columns))
        } else {
            axis < view.len() - 1 && holds_on(view, at, axis, Some(columns))
        },
        0 < step,
        0 <= start <= at[axis],
        (view[axis].logical_end - start) % step == 0,
    ensures
        some_holds(
            parts_from(view, axis, start, step, done),
            at,
            if last {
                view.len() - 2
            } else {
                axis + 1
            },
            if last {
                None
            } else {
                Some(columns)
            },
        ),
    decreases view[axis].logical_end - start,
{
    assert(view[axis].start <= at[axis] < view[axis].logical_end);
    lemma_whole_steps(view[axis].logical_end - start, step);
    let part = part_along(view, axis, start, step);
    let more = done.push(part);
    if at[axis] < start + step {
        lemma_parts_begin(view, axis, start + step, step, more);
        let parts = parts_from(view, axis, start, step, done);
        assert(parts[done.len() as int] == more[done.len() as int]);
        assert(in_logical(part, at)) by {
            assert forall|i: int| 0 <= i < part.len() implies (#[trigger] part[i]).start <= at[i]
                < part[i].logical_end by {
                assert(view[i].start <= at[i] < view[i].logical_end);
            }
        }
        let end = if last {
            view.len() - 2
        } else {
            axis + 1
        };
        assert forall|i: int| 0 <= i < end implies (#[trigger] part[i]).logical_end
            == part[i].physical_end by {
            if i != axis {
                assert(part[i] == view[i]);
            }
        }
        assert(holds_on(
            parts[done.len() as int],
            at,
            end,
            if last {
                None
            } else {
                Some(columns)
            },
        ));
    } else {
        lemma_parts_hold(view, axis, start + step, step, more, at, columns, last);
    }
}

proof fn lemma_split_holds(
    views: Seq<Seq<ShardExtent>>,
    axis: int,
    step: int,
    i: int,
    done: Seq<Seq<ShardExtent>>,
    at: Seq<int>,
    columns: ShardExtent,
    last: bool,
    j: int,
)
    requires
        0 <= i <= j < views.len(),
        0 <= axis < views[j].len(),
        if last {
            axis == views[j].len() - 1 && holds_on(
                views[j],
                at,
                views[j].len() - 2,
                Some(columns),
            )
        } else {
            axis < views[j].len() - 1 && holds_on(views[j], at, axis, Some(columns))
        },
        0 < step,
        (views[j][axis].logical_end - views[j][axis].start) % step == 0,
    ensures
        some_holds(
            split_along_from(views, axis, step, i, done),
            at,
            if last {
                at.len() - 2
            } else {
                axis + 1
            },
            if last {
                None
            } else {
                Some(columns)
            },
        ),
    decreases views.len() - i,
{
    let more = parts_from(views[i], axis, views[i][axis].start as int, step, done);
    if i == j {
        assert(views[j][axis].start <= at[axis]);
        lemma_parts_hold(
            views[i],
            axis,
            views[i][axis].start as int,
            step,
            done,
            at,
            columns,
            last,
        );
        lemma_split_begins(views, axis, step, i + 1, more);
        let end = if last {
            at.len() - 2
        } else {
            axis + 1
        };
        let kept = if last {
            None
        } else {
            Some(columns)
        };
        let x = choose|x: int|
            0 <= x < more.len() && #[trigger] holds_on(more[x], at, end, kept);
        let all = split_along_from(views, axis, step, i, done);
        assert(all[x] == more[x]);
        assert(holds_on(all[x], at, end, kept));
    } else {
        lemma_split_holds(views, axis, step, i + 1, more, at, columns, last, j);
    }
}

proof fn lemma_outer_split_holds(
    views: Seq<Seq<ShardExtent>>,
    axis: int,
    end: int,
    at: Seq<int>,
    columns: ShardExtent,
)
    requires
        0 <= axis <= end,
        end == at.len() - 2,
        some_holds(views, at, axis, Some(columns)),
    ensures
        some_holds(split_outer_from(views, axis, end), at, end, Some(columns)),
    decreases end - axis,
{
    if axis < end {
        let j = choose|j: int|
            0 <= j < views.len() && #[trigger] holds_on(views[j], at, axis, Some(columns));
        assert((views[j][axis].logical_end - views[j][axis].start) % 1 == 0);
        lemma_split_holds(views, axis, 1, 0, Seq::empty(), at, columns, false, j);
        lemma_outer_split_holds(
            split_along_from(views, axis, 1, 0, Seq::empty()),
            axis + 1,
            end,
            at,
            columns,
        );
    }
}

/// Every element of a block that is no padding is in one of its panels.
pub proof fn lemma_panels_cover<M: BlockTarget>(target: &M, block: ShardModel, at: Seq<int>)
    requires
        in_logical(block.extents, at),
    ensures
        match panel_views(target, block) {
            Some(panels) => exists|k: int|
                0 <= k < panels.len() && #[trigger] in_rectangle(panels[k], at),
            None => true,
        },
{
    let rank = block.extents.len();
    if let Some(panels) = panel_views(target, block) {
        let width = panel_width(target, block)->Some_0;
        let columns = block.extents[rank - 1];
        let whole = seq![block.extents];
        assert(holds_on(whole[0], at, 0, Some(columns)));
        lemma_outer_split_holds(whole, 0, rank - 2, at, columns);
        let matrices = split_outer_from(whole, 0, rank - 2);
        let j = choose|j: int|
            0 <= j < matrices.len() && #[trigger] holds_on(
                matrices[j],
                at,
                rank - 2,
                Some(columns),
            );
        lemma_sub_mod_noop(columns.logical_end as int, columns.start as int, width as int);
        lemma_small_mod(0, width as nat);
        lemma_split_holds(
            matrices,
            rank - 1,
            width as int,
            0,
            Seq::empty(),
            at,
            columns,
            true,
            j,
        );
        let split = split_along_from(matrices, rank - 1, width as int, 0, Seq::empty());
        let k = choose|k: int|
            0 <= k < split.len() && #[trigger] holds_on(split[k], at, rank - 2, None);
        assert(panels[k] == without_row_padding(split[k]));
        assert forall|i: int| 0 <= i < panels[k].len() implies (#[trigger] panels[k][i]).start
            <= at[i] < panels[k][i].physical_end by {
            assert(split[k][i].start <= at[i] < split[k][i].logical_end);
        }
        assert(in_rectangle(panels[k], at));
    }
}

// ---------------------------------------------------------------- groups

proof fn lemma_place(ids: Seq<u32>, id: u32, i: int)
    requires
        0 <= i <= ids.len(),
    ensures
        i <= place_from(ids, id, i) <= ids.len(),
    decreases ids.len() - i,
{
    if i < ids.len() && ids[i] <= id {
        lemma_place(ids, id, i + 1);
    }
}

/// The ids of the views are filed, and no others.
proof fn lemma_sorted_ids(views: Seq<ViewModel>, d: int, done: Seq<u32>, id: u32)
    requires
        0 <= d,
    ensures
        sorted_ids_from(views, d, done).contains(id) <==> done.contains(id) || exists|e: int|
            d <= e < views.len() && (#[trigger] views[e]).shard.0 == id,
    decreases views.len() - d,
{
    if d < views.len() {
        let own = views[d].shard.0;
        let place = place_from(done, own, 0);
        lemma_place(done, own, 0);
        let more = done.insert(place, own);
        lemma_sorted_ids(views, d + 1, more, id);
        assert(more.contains(id) <==> done.contains(id) || own == id) by {
            if done.contains(id) {
                let k = choose|k: int| 0 <= k < done.len() && done[k] == id;
                if k < place {
                    assert(more[k] == id);
                } else {
                    assert(more[k + 1] == id);
                }
            }
            if own == id {
                assert(more[place] == id);
            }
            if more.contains(id) {
                let k = choose|k: int| 0 <= k < more.len() && more[k] == id;
                if k < place {
                    assert(done[k] == id);
                } else if k > place {
                    assert(done[k - 1] == id);
                }
            }
        }
    }
}

/// The transfers can be gathered, and have the receivers.
spec fn gathers_for(
    shards: Seq<ShardModel>,
    transfers: Seq<BlockExchangeModel>,
    receivers: Seq<u32>,
    indices: Seq<usize>,
) -> bool {
    forall|i: int|
        0 <= i < indices.len() ==> {
            &&& (#[trigger] indices[i]) < transfers.len()
            &&& can_gather(shards, transfers[indices[i] as int])
            &&& receivers == sorted_ids_from(
                transfers[indices[i] as int].destinations,
                0,
                Seq::empty(),
            )
        }
}

spec fn groups_fit(
    shards: Seq<ShardModel>,
    transfers: Seq<BlockExchangeModel>,
    groups: Seq<GroupModel<usize>>,
) -> bool {
    forall|g: int|
        0 <= g < groups.len() ==> gathers_for(
            shards,
            transfers,
            (#[trigger] groups[g]).key,
            groups[g].items,
        )
}

proof fn lemma_gatherable(
    shards: Seq<ShardModel>,
    transfers: Seq<BlockExchangeModel>,
    t: int,
    groups: Seq<GroupModel<usize>>,
)
    requires
        0 <= t,
        transfers.len() <= usize::MAX,
        groups_fit(shards, transfers, groups),
    ensures
        groups_fit(shards, transfers, gatherable_from(shards, transfers, t, groups)),
    decreases transfers.len() - t,
{
    if t < transfers.len() {
        if can_gather(shards, transfers[t]) {
            let key = sorted_ids_from(transfers[t].destinations, 0, Seq::empty());
            let more = groups_insert(groups, key, t as usize);
            let slot = slot_from(groups, key, 0);
            lemma_slot_bounds(groups, key);
            assert forall|g: int| 0 <= g < more.len() implies gathers_for(
                shards,
                transfers,
                (#[trigger] more[g]).key,
                more[g].items,
            ) by {
                if slot < groups.len() && groups[slot].key == key {
                    assert(gathers_for(shards, transfers, groups[g].key, groups[g].items));
                } else if g < slot {
                    assert(more[g] == groups[g]);
                } else if g > slot {
                    assert(more[g] == groups[g - 1]);
                }
            }
            lemma_gatherable(shards, transfers, t + 1, more);
        } else {
            lemma_gatherable(shards, transfers, t + 1, groups);
        }
    }
}

/// A plan is for transfers to blocks with one rectangle, and has its panels.
spec fn plan_fits<M: BlockTarget>(
    target: &M,
    shards: Seq<ShardModel>,
    transfers: Seq<BlockExchangeModel>,
    plan: GatherPlan,
) -> bool {
    &&& plan.receivers.len() > 0
    &&& same_rectangles(shards, plan.receivers)
    &&& panel_views(target, shards[plan.receivers[0] as int]) == Some(plan.panels)
    &&& gathers_for(shards, transfers, plan.receivers, plan.transfers)
}

proof fn lemma_plans_fit<M: BlockTarget>(
    target: &M,
    s: BuilderModel,
    transfers: Seq<BlockExchangeModel>,
    groups: Seq<GroupModel<usize>>,
    g: int,
    count: int,
    done: Seq<GatherPlan>,
)
    requires
        0 <= g,
        groups_fit(s.shards, transfers, groups),
        forall|p: int|
            0 <= p < done.len() ==> plan_fits(target, s.shards, transfers, #[trigger] done[p]),
    ensures
        match gather_plans_from(target, s, groups, g, count, done) {
            Ok(plans) => forall|p: int|
                0 <= p < plans.len() ==> plan_fits(
                    target,
                    s.shards,
                    transfers,
                    #[trigger] plans[p],
                ),
            Err(_) => true,
        },
    decreases groups.len() - g,
{
    if g < groups.len() {
        if groups[g].key.len() == 0 || !same_rectangles(s.shards, groups[g].key) {
            lemma_plans_fit(target, s, transfers, groups, g + 1, count, done);
        } else {
            match panel_views(target, s.shards[groups[g].key[0] as int]) {
                None => {
                    lemma_plans_fit(target, s, transfers, groups, g + 1, count, done);
                },
                Some(panels) => {
                    let plan = GatherPlan {
                        receivers: groups[g].key,
                        transfers: groups[g].items,
                        panels,
                    };
                    assert(plan_fits(target, s.shards, transfers, plan));
                    lemma_plans_fit(
                        target,
                        s,
                        transfers,
                        groups,
                        g + 1,
                        count + panels.len(),
                        done.push(plan),
                    );
                },
            }
        }
    }
}

// ---------------------------------------------------------------- delivery

/// One exchange brings an element to an added block, from where one of the
/// planned transfers sends it, and another one sends it on to all receivers.
spec fn passes(
    transfers: Seq<BlockExchangeModel>,
    plan: GatherPlan,
    added: nat,
    w: Gathered,
    at: Seq<int>,
    g: int,
    f: int,
    j: int,
) -> bool {
    &&& 0 <= g < w.gather.len()
    &&& 0 <= f < w.forward.len()
    &&& 0 <= j < plan.transfers.len()
    &&& added <= w.forward[f].source.shard.0
    &&& w.gather[g].destinations == seq![
        ViewModel { shard: w.forward[f].source.shard, extents: w.gather[g].source.extents },
    ]
    &&& in_rectangle(w.gather[g].source.extents, at)
    &&& w.gather[g].source.shard == transfers[plan.transfers[j] as int].source.shard
    &&& in_rectangle(transfers[plan.transfers[j] as int].source.extents, at)
    &&& in_rectangle(w.forward[f].source.extents, at)
    &&& forall|i: int|
        0 <= i < plan.receivers.len() ==> w.forward[f].destinations.contains(
            ViewModel {
                shard: LowShardId(#[trigger] plan.receivers[i]),
                extents: w.forward[f].source.extents,
            },
        )
}

/// What was gathered before is still gathered.
spec fn gathers_on(w: Gathered, more: Gathered) -> bool {
    begins(more.gather, w.gather) && begins(more.forward, w.forward)
}

proof fn lemma_still_passes(
    transfers: Seq<BlockExchangeModel>,
    plan: GatherPlan,
    added: nat,
    w: Gathered,
    more: Gathered,
    at: Seq<int>,
)
    requires
        gathers_on(w, more),
        exists|g: int, f: int, j: int| passes(transfers, plan, added, w, at, g, f, j),
    ensures
        exists|g: int, f: int, j: int| passes(transfers, plan, added, more, at, g, f, j),
{
    let (g, f, j) = choose|g: int, f: int, j: int| passes(transfers, plan, added, w, at, g, f, j);
    assert(more.gather[g] == w.gather[g]);
    assert(more.forward[f] == w.forward[f]);
    assert(passes(transfers, plan, added, more, at, g, f, j));
}

proof fn lemma_panel_passes<M: BlockTarget>(
    target: &M,
    s: BuilderModel,
    transfers: Seq<BlockExchangeModel>,
    plan: GatherPlan,
    receiver: TypeModel,
    panel: Seq<ShardExtent>,
    w: Gathered,
    added: nat,
    at: Seq<int>,
)
    requires
        panel.len() >= 2,
        is_single_below(panel, panel.len() - 2),
        in_rectangle(panel, at),
        added <= s.shards.len(),
    ensures
        match gather_panel(target, s, transfers, plan, receiver, panel, w) {
            Ok((_, more)) => exists|g: int, f: int, j: int|
                passes(transfers, plan, added, more, at, g, f, j),
            Err(_) => true,
        },
{
    lemma_relays_deliver(target, s, transfers, plan, receiver, panel, w, at);
    if let Ok((_, more)) = gather_panel(target, s, transfers, plan, receiver, panel, w) {
        let id = LowShardId(s.shards.len() as u32);
        let parts = more.gather.skip(w.gather.len() as int);
        let (k, j) = choose|k: int, j: int|
            arrives(transfers, plan.transfers, parts, id, at, k, j);
        let g = w.gather.len() + k;
        let f = more.forward.len() - 1;
        assert(more.gather[g] == parts[k]);
        assert(more.forward[f] == more.forward.last());
        assert forall|i: int| 0 <= i < plan.receivers.len() implies more.forward[f].destinations.contains(
            ViewModel {
                shard: LowShardId(#[trigger] plan.receivers[i]),
                extents: more.forward[f].source.extents,
            },
        ) by {
            assert(more.forward[f].destinations[i] == (ViewModel {
                shard: LowShardId(plan.receivers[i]),
                extents: panel,
            }));
        }
        assert(passes(transfers, plan, added, more, at, g, f, j));
    }
}

proof fn lemma_panel_adds<M: BlockTarget>(
    target: &M,
    s: BuilderModel,
    transfers: Seq<BlockExchangeModel>,
    plan: GatherPlan,
    receiver: TypeModel,
    panel: Seq<ShardExtent>,
    w: Gathered,
)
    ensures
        match gather_panel(target, s, transfers, plan, receiver, panel, w) {
            Ok((t, more)) => {
                &&& gathers_on(w, more)
                &&& more.removed == w.removed
                &&& begins(t.shards, s.shards)
                &&& t == (BuilderModel { shards: t.shards, ..s })
            },
            Err(_) => true,
        },
{
}

/// A plan sends every element of its panels on, and changes nothing but the
/// blocks.
proof fn lemma_plan_passes<M: BlockTarget>(
    target: &M,
    s: BuilderModel,
    transfers: Seq<BlockExchangeModel>,
    plan: GatherPlan,
    receiver: TypeModel,
    k: int,
    w: Gathered,
    added: nat,
    q: int,
    at: Seq<int>,
)
    requires
        0 <= k,
        added <= s.shards.len(),
        k <= q < plan.panels.len() ==> {
            &&& plan.panels[q].len() >= 2
            &&& is_single_below(plan.panels[q], plan.panels[q].len() - 2)
            &&& in_rectangle(plan.panels[q], at)
        },
    ensures
        match gather_panels_from(target, s, transfers, plan, receiver, k, w) {
            Ok((t, more)) => {
                &&& gathers_on(w, more)
                &&& more.removed == w.removed + plan.transfers
                &&& begins(t.shards, s.shards)
                &&& t == (BuilderModel { shards: t.shards, ..s })
                &&& k <= q < plan.panels.len() ==> exists|g: int, f: int, j: int|
                    passes(transfers, plan, added, more, at, g, f, j)
            },
            Err(_) => true,
        },
    decreases plan.panels.len() - k,
{
    if k < plan.panels.len() {
        let panel = plan.panels[k];
        lemma_panel_adds(target, s, transfers, plan, receiver, panel, w);
        if k == q {
            lemma_panel_passes(target, s, transfers, plan, receiver, panel, w, added, at);
        }
        if let Ok((next, some)) = gather_panel(target, s, transfers, plan, receiver, panel, w) {
            lemma_plan_passes(
                target,
                next,
                transfers,
                plan,
                receiver,
                k + 1,
                some,
                added,
                q,
                at,
            );
            if let Ok((t, more)) = gather_panels_from(
                target,
                next,
                transfers,
                plan,
                receiver,
                k + 1,
                some,
            ) {
                lemma_begins_on(w.gather, some.gather, more.gather);
                lemma_begins_on(w.forward, some.forward, more.forward);
                lemma_begins_on(s.shards, next.shards, t.shards);
                if k == q {
                    lemma_still_passes(transfers, plan, added, some, more, at);
                }
            }
        }
    }
}

/// All plans are carried out, and what they replace is theirs.
proof fn lemma_plans_pass<M: BlockTarget>(
    target: &M,
    s: BuilderModel,
    transfers: Seq<BlockExchangeModel>,
    plans: Seq<GatherPlan>,
    p: int,
    w: Gathered,
    added: nat,
    x: int,
    q: int,
    at: Seq<int>,
)
    requires
        0 <= p,
        added <= s.shards.len(),
        p <= x < plans.len() ==> 0 <= q < plans[x].panels.len() && {
            &&& plans[x].panels[q].len() >= 2
            &&& is_single_below(plans[x].panels[q], plans[x].panels[q].len() - 2)
            &&& in_rectangle(plans[x].panels[q], at)
        },
    ensures
        match gather_all_from(target, s, transfers, plans, p, w) {
            Ok((t, more)) => {
                &&& gathers_on(w, more)
                &&& begins(t.shards, s.shards)
                &&& t == (BuilderModel { shards: t.shards, ..s })
                &&& p <= x < plans.len() ==> exists|g: int, f: int, j: int|
                    passes(transfers, plans[x], added, more, at, g, f, j)
                &&& forall|i: usize| #[trigger]
                    more.removed.contains(i) ==> w.removed.contains(i) || exists|y: int|
                        p <= y < plans.len() && (#[trigger] plans[y]).transfers.contains(i)
            },
            Err(_) => true,
        },
    decreases plans.len() - p,
{
    if p < plans.len() {
        let receiver = s.shards[plans[p].receivers[0] as int].tensor_type;
        let own = if p == x {
            q
        } else {
            -1
        };
        lemma_plan_passes(target, s, transfers, plans[p], receiver, 0, w, added, own, at);
        if let Ok((next, some)) = gather_panels_from(
            target,
            s,
            transfers,
            plans[p],
            receiver,
            0,
            w,
        ) {
            lemma_plans_pass(target, next, transfers, plans, p + 1, some, added, x, q, at);
            if let Ok((t, more)) = gather_all_from(target, next, transfers, plans, p + 1, some) {
                lemma_begins_on(w.gather, some.gather, more.gather);
                lemma_begins_on(w.forward, some.forward, more.forward);
                lemma_begins_on(s.shards, next.shards, t.shards);
                if p == x {
                    lemma_still_passes(transfers, plans[p], added, some, more, at);
                }
                assert forall|i: usize| #[trigger]
                    more.removed.contains(i) implies w.removed.contains(i) || exists|y: int|
                    p <= y < plans.len() && (#[trigger] plans[y]).transfers.contains(i) by {
                    if some.removed.contains(i) {
                        let k = choose|k: int|
                            0 <= k < some.removed.len() && some.removed[k] == i;
                        if k < w.removed.len() {
                            assert(w.removed[k] == i);
                        } else {
                            assert(plans[p].transfers[k - w.removed.len()] == i);
                            assert(plans[p].transfers.contains(i));
                        }
                    }
                }
            }
        }
    }
}

proof fn lemma_kept(
    transfers: Seq<BlockExchangeModel>,
    removed: Seq<usize>,
    t: int,
    done: Seq<BlockExchangeModel>,
    x: int,
)
    requires
        0 <= t,
    ensures
        begins(kept_from(transfers, removed, t, done), done),
        t <= x < transfers.len() && !removed.contains(x as usize) ==> kept_from(
            transfers,
            removed,
            t,
            done,
        ).contains(transfers[x]),
    decreases transfers.len() - t,
{
    if t < transfers.len() {
        let more = if removed.contains(t as usize) {
            done
        } else {
            done.push(transfers[t])
        };
        lemma_kept(transfers, removed, t + 1, more, x);
        let all = kept_from(transfers, removed, t, done);
        lemma_begins_on(done, more, all);
        if t == x && !removed.contains(x as usize) {
            assert(all[done.len() as int] == more[done.len() as int]);
        }
    }
}

/// An element reaches a receiver through an added block: one exchange brings it
/// there from where a replaced transfer sends it to the receiver, and a later
/// one sends it on, always at the same coordinates.
pub open spec fn is_relayed(
    result: Seq<BlockExchangeModel>,
    transfers: Seq<BlockExchangeModel>,
    added: nat,
    receiver: LowShardId,
    at: Seq<int>,
    g: int,
    f: int,
    u: int,
    e: int,
) -> bool {
    &&& 0 <= g < f < result.len()
    &&& 0 <= u < transfers.len()
    &&& 0 <= e < transfers[u].destinations.len()
    &&& transfers[u].destinations[e].shard == receiver
    &&& in_rectangle(transfers[u].destinations[e].extents, at)
    &&& in_rectangle(transfers[u].source.extents, at)
    &&& result[g].source.shard == transfers[u].source.shard
    &&& in_rectangle(result[g].source.extents, at)
    &&& result[g].destinations == seq![
        ViewModel { shard: result[f].source.shard, extents: result[g].source.extents },
    ]
    &&& added <= result[f].source.shard.0
    &&& in_rectangle(result[f].source.extents, at)
    &&& result[f].destinations.contains(
        ViewModel { shard: receiver, extents: result[f].source.extents },
    )
}

/// Gathering leaves nothing out: every transfer is kept, or every element of its
/// receivers that is no padding reaches them through an added block.
pub proof fn lemma_gathering_delivers<M: BlockTarget>(
    target: &M,
    s: BuilderModel,
    transfers: Seq<BlockExchangeModel>,
    t: int,
    d: int,
    at: Seq<int>,
)
    requires
        transfers.len() <= usize::MAX,
        0 <= t < transfers.len(),
        0 <= d < transfers[t].destinations.len(),
        in_logical(s.shards[transfers[t].destinations[d].shard.0 as int].extents, at),
    ensures
        match gathered(target, s, transfers) {
            Ok((_, result)) => result.contains(transfers[t]) || exists|
                g: int,
                f: int,
                u: int,
                e: int,
            |
                is_relayed(
                    result,
                    transfers,
                    s.shards.len(),
                    transfers[t].destinations[d].shard,
                    at,
                    g,
                    f,
                    u,
                    e,
                ),
            Err(_) => true,
        },
{
    if let Ok((_, result)) = gathered(target, s, transfers) {
        let groups = gatherable_from(s.shards, transfers, 0, Seq::empty());
        let plans = gather_plans_from(target, s, groups, 0, 0, Seq::empty())->Ok_0;
        let none = Gathered {
            used: Seq::empty(),
            removed: Seq::empty(),
            gather: Seq::empty(),
            forward: Seq::empty(),
        };
        let (_, w) = gather_all_from(target, s, transfers, plans, 0, none)->Ok_0;
        let kept = kept_from(transfers, w.removed, 0, Seq::empty());
        lemma_kept(transfers, w.removed, 0, Seq::empty(), t);
        lemma_gatherable(s.shards, transfers, 0, Seq::empty());
        lemma_plans_fit(target, s, transfers, groups, 0, 0, Seq::empty());
        if !w.removed.contains(t as usize) {
            let i = choose|i: int| 0 <= i < kept.len() && kept[i] == transfers[t];
            assert(result[i] == transfers[t]);
        } else {
            lemma_plans_pass(target, s, transfers, plans, 0, none, s.shards.len(), -1, -1, at);
            let x = choose|x: int|
                0 <= x < plans.len() && (#[trigger] plans[x]).transfers.contains(t as usize);
            let plan = plans[x];
            assert(plan_fits(target, s.shards, transfers, plan));
            let own = transfers[t].destinations;
            let receiver = own[d].shard;
            let i = choose|i: int| 0 <= i < plan.transfers.len() && plan.transfers[i] == t as usize;
            assert(plan.transfers[i] == t as usize);
            lemma_sorted_ids(own, 0, Seq::empty(), receiver.0);
            assert(own[d].shard.0 == receiver.0);
            let r = choose|r: int| 0 <= r < plan.receivers.len() && plan.receivers[r] == receiver.0;
            assert(plan.receivers[r] == receiver.0);
            let block = s.shards[plan.receivers[0] as int];
            assert(s.shards[receiver.0 as int].extents == block.extents);
            lemma_panels_cover(target, block, at);
            lemma_panels_are_single(target, block);
            let q = choose|q: int|
                0 <= q < plan.panels.len() && #[trigger] in_rectangle(plan.panels[q], at);
            assert(plan.panels[q].len() == block.extents.len());
            lemma_plans_pass(target, s, transfers, plans, 0, none, s.shards.len(), x, q, at);
            let (g, f, j) = choose|g: int, f: int, j: int|
                passes(transfers, plan, s.shards.len(), w, at, g, f, j);
            let u = plan.transfers[j] as int;
            let others = transfers[u].destinations;
            lemma_sorted_ids(others, 0, Seq::empty(), receiver.0);
            let e = choose|e: int| 0 <= e < others.len() && (#[trigger] others[e]).shard.0
                == receiver.0;
            assert(receives_alike(s.shards, transfers[u].source, others[e]));
            let first = kept.len() + g;
            let second = kept.len() + w.gather.len() + f;
            assert(result[first] == w.gather[g]);
            assert(result[second] == w.forward[f]);
            assert(others[e].shard == receiver);
            assert(is_relayed(
                result,
                transfers,
                s.shards.len(),
                receiver,
                at,
                first,
                second,
                u,
                e,
            ));
        }
    }
}

/// Gathering adds blocks, and changes nothing else of the graph.
pub proof fn lemma_gathering_adds_blocks<M: BlockTarget>(
    target: &M,
    s: BuilderModel,
    transfers: Seq<BlockExchangeModel>,
)
    ensures
        match gathered(target, s, transfers) {
            Ok((next, result)) => {
                &&& begins(next.shards, s.shards)
                &&& next == (BuilderModel { shards: next.shards, ..s })
            },
            Err(_) => true,
        },
{
    if let Ok((next, result)) = gathered(target, s, transfers) {
        let groups = gatherable_from(s.shards, transfers, 0, Seq::empty());
        let plans = gather_plans_from(target, s, groups, 0, 0, Seq::empty())->Ok_0;
        let none = Gathered {
            used: Seq::empty(),
            removed: Seq::empty(),
            gather: Seq::empty(),
            forward: Seq::empty(),
        };
        lemma_plans_pass(
            target,
            s,
            transfers,
            plans,
            0,
            none,
            s.shards.len(),
            -1,
            -1,
            Seq::empty(),
        );
    }
}

} // verus!
