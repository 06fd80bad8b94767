//! Gathers scattered sources into panels on idle tiles, so that each panel is
//! sent to all its receivers at once.

use crate::blocks::{
    backing, obtained_all, one_view, push_block, BlockExchange, BlockExchangeModel, BlockStepWith,
    BlockTarget, BuilderModel, CopyOrder, ExpansionError, ExpansionResult, Region,
    TileGraphBuilder,
};
use crate::extents::{max, max_u32, min, min_u32};
use crate::low::{LowShard, LowShardId, ShardDefinition, ShardModel, ShardView, ViewModel};
use crate::model::{Model, copy_all, deep, duplicate_all, group_deep};
use crate::order::{groups_insert, GroupModel, Groups};
use crate::tensor::{
    same_extents, AmpOrder, ElementOrder, FormatModel, LayoutModel, MemoryClass, ShardExtent,
    TensorType, TypeModel,
};
use vstd::prelude::*;

verus! {

// ---------------------------------------------------------------- panels

/// One part of a rectangle along an axis.
pub open spec fn part_along(view: Seq<ShardExtent>, axis: int, start: int, step: int) -> Seq<
    ShardExtent,
> {
    view.update(
        axis,
        ShardExtent {
            axis: view[axis].axis,
            start: start as u32,
            logical_end: (start + step) as u32,
            physical_end: (start + step) as u32,
        },
    )
}

/// `done` followed by the parts of a rectangle along an axis from `start` on.
pub open spec fn parts_from(
    view: Seq<ShardExtent>,
    axis: int,
    start: int,
    step: int,
    done: Seq<Seq<ShardExtent>>,
) -> Seq<Seq<ShardExtent>>
    decreases
            (if start < view[axis].logical_end {
                view[axis].logical_end - start
            } else {
                0
            }),
{
    if start >= view[axis].logical_end || step <= 0 {
        done
    } else {
        parts_from(
            view,
            axis,
            start + step,
            step,
            done.push(part_along(view, axis, start, step)),
        )
    }
}

/// `done` followed by the parts along an axis of the rectangles from `i` on.
pub open spec fn split_along_from(
    views: Seq<Seq<ShardExtent>>,
    axis: int,
    step: int,
    i: int,
    done: Seq<Seq<ShardExtent>>,
) -> Seq<Seq<ShardExtent>>
    decreases views.len() - i,
{
    if i >= views.len() {
        done
    } else {
        split_along_from(
            views,
            axis,
            step,
            i + 1,
            parts_from(views[i], axis, views[i][axis].start as int, step, done),
        )
    }
}

/// The rectangles divided into single coordinates along the axes from `axis` on
/// up to `end`.
pub open spec fn split_outer_from(views: Seq<Seq<ShardExtent>>, axis: int, end: int) -> Seq<
    Seq<ShardExtent>,
>
    decreases end - axis,
{
    if axis >= end {
        views
    } else {
        split_outer_from(split_along_from(views, axis, 1, 0, Seq::empty()), axis + 1, end)
    }
}

/// The rectangle without the padding of its rows.
pub open spec fn without_row_padding(view: Seq<ShardExtent>) -> Seq<ShardExtent> {
    let row = view.len() - 2;
    view.update(row, ShardExtent { physical_end: view[row].logical_end, ..view[row] })
}

/// Columns of a panel that can be sent on as it is.
pub open spec fn panel_width<M: BlockTarget>(target: &M, block: ShardModel) -> Option<u32> {
    let columns = block.extents[block.extents.len() - 1];
    match block.tensor_type.format.layout.order {
        ElementOrder::RowMajor => if columns.physical_end < columns.start {
            None
        } else {
            Some((columns.physical_end - columns.start) as u32)
        },
        ElementOrder::Amp(AmpOrder::Left) => target.spec_column_grain(
            block.tensor_type.format.layout.order,
            block.tensor_type.format.precision,
        ),
        _ => None,
    }
}

/// The panels of a block: one matrix each, as wide as can be sent on, without
/// padding. `None` where the block does not consist of whole panels.
pub open spec fn panel_views<M: BlockTarget>(target: &M, block: ShardModel) -> Option<
    Seq<Seq<ShardExtent>>,
> {
    let rank = block.extents.len();
    if rank < 2 {
        None
    } else {
        match panel_width(target, block) {
            None => None,
            Some(width) => {
                let columns = block.extents[rank - 1];
                if width == 0 || columns.start % width != 0 || columns.logical_end % width != 0 {
                    None
                } else {
                    let matrices = split_outer_from(seq![block.extents], 0, rank - 2);
                    let panels = split_along_from(
                        matrices,
                        rank - 1,
                        width as int,
                        0,
                        Seq::empty(),
                    );
                    Some(
                        Seq::new(panels.len(), |i: int| without_row_padding(panels[i])),
                    )
                }
            },
        }
    }
}

// ---------------------------------------------------------------- groups

/// The common part of two rectangles, padding included.
pub open spec fn common_extent(a: ShardExtent, b: ShardExtent) -> ShardExtent {
    let end = min(a.physical_end, b.physical_end);
    ShardExtent { axis: a.axis, start: max(a.start, b.start), logical_end: end, physical_end: end }
}

/// The common part of two rectangles, if there is one.
pub open spec fn common_part(a: Seq<ShardExtent>, b: Seq<ShardExtent>) -> Option<
    Seq<ShardExtent>,
> {
    if a.len() == b.len() && forall|i: int|
        0 <= i < a.len() ==> common_extent(a[i], b[i]).start < (#[trigger] common_extent(
            a[i],
            b[i],
        )).physical_end {
        Some(Seq::new(a.len(), |i: int| common_extent(a[i], b[i])))
    } else {
        None
    }
}

/// Some transfer reads an allocation that some transfer writes.
pub open spec fn reads_written(shards: Seq<ShardModel>, transfers: Seq<BlockExchangeModel>) -> bool {
    exists|t: int, u: int, d: int|
        0 <= t < transfers.len() && 0 <= u < transfers.len() && 0 <= d
            < transfers[u].destinations.len() && backing(
            shards,
            (#[trigger] transfers[t]).source.shard,
        ) == backing(shards, (#[trigger] transfers[u].destinations[d]).shard)
}

/// No padding.
pub open spec fn is_dense(extents: Seq<ShardExtent>) -> bool {
    forall|i: int|
        0 <= i < extents.len() ==> (#[trigger] extents[i]).logical_end == extents[i].physical_end
}

/// The receiver stores the source's elements in the same way, at the same
/// coordinates.
pub open spec fn receives_alike(
    shards: Seq<ShardModel>,
    source: ViewModel,
    receiver: ViewModel,
) -> bool {
    &&& source.shard.0 < shards.len()
    &&& receiver.shard.0 < shards.len()
    &&& shards[source.shard.0 as int].tensor_type.format.precision
        == shards[receiver.shard.0 as int].tensor_type.format.precision
    &&& shards[source.shard.0 as int].tensor_type.format.layout.order
        == shards[receiver.shard.0 as int].tensor_type.format.layout.order
    &&& receiver.extents == source.extents
    &&& is_dense(receiver.extents)
}

/// A transfer that can go through a panel: several receivers, all alike.
pub open spec fn can_gather(shards: Seq<ShardModel>, transfer: BlockExchangeModel) -> bool {
    &&& transfer.destinations.len() >= 2
    &&& transfer.order != CopyOrder::Panels
    &&& forall|d: int|
        0 <= d < transfer.destinations.len() ==> receives_alike(
            shards,
            transfer.source,
            #[trigger] transfer.destinations[d],
        )
}

/// Position of the first id in a sorted list that is greater, from `i` on.
pub open spec fn place_from(ids: Seq<u32>, id: u32, i: int) -> int
    decreases ids.len() - i,
{
    if i >= ids.len() || ids[i] > id {
        i
    } else {
        place_from(ids, id, i + 1)
    }
}

/// The ids of the views from `d` on filed into a sorted list.
pub open spec fn sorted_ids_from(views: Seq<ViewModel>, d: int, done: Seq<u32>) -> Seq<u32>
    decreases views.len() - d,
{
    if d >= views.len() {
        done
    } else {
        sorted_ids_from(
            views,
            d + 1,
            done.insert(place_from(done, views[d].shard.0, 0), views[d].shard.0),
        )
    }
}

/// The transfers from `t` on that can be gathered, by their receivers.
pub open spec fn gatherable_from(
    shards: Seq<ShardModel>,
    transfers: Seq<BlockExchangeModel>,
    t: int,
    groups: Seq<GroupModel<usize>>,
) -> Seq<GroupModel<usize>>
    decreases transfers.len() - t,
{
    if t >= transfers.len() {
        groups
    } else {
        gatherable_from(
            shards,
            transfers,
            t + 1,
            if can_gather(shards, transfers[t]) {
                groups_insert(
                    groups,
                    sorted_ids_from(transfers[t].destinations, 0, Seq::empty()),
                    t as usize,
                )
            } else {
                groups
            },
        )
    }
}

/// What goes through panels: the receivers, the transfers and the panels.
pub struct GatherPlan {
    pub receivers: Seq<u32>,
    pub transfers: Seq<usize>,
    pub panels: Seq<Seq<ShardExtent>>,
}

/// All receivers have the same rectangle.
pub open spec fn same_rectangles(shards: Seq<ShardModel>, receivers: Seq<u32>) -> bool {
    forall|i: int|
        0 <= i < receivers.len() ==> (#[trigger] receivers[i]) < shards.len()
            && shards[receivers[i] as int].extents == shards[receivers[0] as int].extents
}

/// `done` followed by the plans for the groups from `g` on. There must be a tile
/// for every panel.
pub open spec fn gather_plans_from<M: BlockTarget>(
    target: &M,
    s: BuilderModel,
    groups: Seq<GroupModel<usize>>,
    g: int,
    count: int,
    done: Seq<GatherPlan>,
) -> Result<Seq<GatherPlan>, ExpansionError>
    decreases groups.len() - g,
{
    if g >= groups.len() {
        Ok(done)
    } else if groups[g].key.len() == 0 || !same_rectangles(s.shards, groups[g].key) {
        gather_plans_from(target, s, groups, g + 1, count, done)
    } else {
        match panel_views(target, s.shards[groups[g].key[0] as int]) {
            None => gather_plans_from(target, s, groups, g + 1, count, done),
            Some(panels) => if count + panels.len() > s.tile_count {
                Err(ExpansionError::InvalidCopyPlan)
            } else {
                gather_plans_from(
                    target,
                    s,
                    groups,
                    g + 1,
                    count + panels.len(),
                    done.push(
                        GatherPlan {
                            receivers: groups[g].key,
                            transfers: groups[g].items,
                            panels,
                        },
                    ),
                )
            },
        }
    }
}

// ---------------------------------------------------------------- panels

/// The transfers so far.
pub struct Gathered {
    /// Tiles that hold panels.
    pub used: Seq<u16>,
    /// Transfers that go through panels.
    pub removed: Seq<usize>,
    /// Transfers into panels.
    pub gather: Seq<BlockExchangeModel>,
    /// Transfers out of panels.
    pub forward: Seq<BlockExchangeModel>,
}

/// The tiles that a plan reads or writes.
pub open spec fn takes_part(
    shards: Seq<ShardModel>,
    transfers: Seq<BlockExchangeModel>,
    plan: GatherPlan,
    tile: u16,
) -> bool {
    ||| exists|i: int|
        0 <= i < plan.receivers.len() && #[trigger] shards[plan.receivers[i] as int].tile == tile
    ||| exists|i: int|
        0 <= i < plan.transfers.len() && shards[transfers[#[trigger] plan.transfers[i] as int].source.shard.0 as int].tile
            == tile
}

/// The last idle tile below `end`.
pub open spec fn idle_below(
    shards: Seq<ShardModel>,
    transfers: Seq<BlockExchangeModel>,
    plan: GatherPlan,
    used: Seq<u16>,
    end: int,
) -> Option<u16>
    decreases end,
{
    if end <= 0 {
        None
    } else if !used.contains((end - 1) as u16) && !takes_part(
        shards,
        transfers,
        plan,
        (end - 1) as u16,
    ) {
        Some((end - 1) as u16)
    } else {
        idle_below(shards, transfers, plan, used, end - 1)
    }
}

/// Bytes of a rectangle from axis `i` on, times `acc`.
pub open spec fn rectangle_bytes_from(extents: Seq<ShardExtent>, i: int, acc: int) -> Result<
    int,
    ExpansionError,
>
    decreases extents.len() - i,
{
    if i >= extents.len() {
        Ok(acc)
    } else if extents[i].physical_end < extents[i].start || acc * (extents[i].physical_end
        - extents[i].start) > u64::MAX {
        Err(ExpansionError::IdOverflow)
    } else {
        rectangle_bytes_from(
            extents,
            i + 1,
            acc * (extents[i].physical_end - extents[i].start),
        )
    }
}

/// The parts of a panel that come from the planned transfers from `i` on, with
/// their bytes.
pub open spec fn panel_parts_from(
    transfers: Seq<BlockExchangeModel>,
    indices: Seq<usize>,
    panel: Seq<ShardExtent>,
    width: int,
    id: LowShardId,
    i: int,
    covered: int,
    done: Seq<BlockExchangeModel>,
) -> Result<(int, Seq<BlockExchangeModel>), ExpansionError>
    decreases indices.len() - i,
{
    if i >= indices.len() {
        Ok((covered, done))
    } else {
        let whole = transfers[indices[i] as int];
        match common_part(whole.source.extents, panel) {
            None => panel_parts_from(
                transfers,
                indices,
                panel,
                width,
                id,
                i + 1,
                covered,
                done,
            ),
            Some(part) => match rectangle_bytes_from(part, 0, width) {
                Err(e) => Err(e),
                Ok(bytes) => if covered + bytes > u64::MAX {
                    Err(ExpansionError::IdOverflow)
                } else {
                    panel_parts_from(
                        transfers,
                        indices,
                        panel,
                        width,
                        id,
                        i + 1,
                        covered + bytes,
                        done.push(
                            BlockExchangeModel {
                                source: ViewModel { shard: whole.source.shard, extents: part },
                                destinations: seq![ViewModel { shard: id, extents: part }],
                                order: whole.order,
                            },
                        ),
                    )
                },
            },
        }
    }
}

/// Some part starts at the row `end` and has the columns of the panel: the
/// position of the first such part from `i` on.
pub open spec fn part_at_from(
    parts: Seq<BlockExchangeModel>,
    panel: Seq<ShardExtent>,
    end: u32,
    i: int,
) -> Option<int>
    decreases parts.len() - i,
{
    let row = panel.len() - 2;
    if i >= parts.len() {
        None
    } else if parts[i].source.extents[row].start == end && parts[i].source.extents[row + 1]
        == panel[row + 1] {
        Some(i)
    } else {
        part_at_from(parts, panel, end, i + 1)
    }
}

/// Part after part, `count` in all, the rows of the panel are covered from `end`
/// on without gap or overlap.
pub open spec fn chains_from(
    parts: Seq<BlockExchangeModel>,
    panel: Seq<ShardExtent>,
    end: u32,
    count: int,
) -> bool
    decreases count,
{
    if count <= 0 {
        end == panel[panel.len() - 2].physical_end
    } else {
        match part_at_from(parts, panel, end, 0) {
            None => false,
            Some(i) => chains_from(
                parts,
                panel,
                parts[i].source.extents[panel.len() - 2].physical_end,
                count - 1,
            ),
        }
    }
}

/// The type of a panel: that of a receiver, in standard memory.
pub open spec fn panel_type(receiver: TypeModel) -> TypeModel {
    TypeModel {
        format: FormatModel {
            layout: LayoutModel {
                memory_class: MemoryClass::Ipu21Standard,
                ..receiver.format.layout
            },
            ..receiver.format
        },
        ..receiver
    }
}

/// A panel of a block.
pub open spec fn panel_block_model(receiver: TypeModel, tile: u16, panel: Seq<ShardExtent>) -> ShardModel {
    ShardModel {
        id: LowShardId(0),
        tile,
        tensor_type: panel_type(receiver),
        extents: panel,
        definition: ShardDefinition::Staging,
    }
}

/// One transfer of a panel to all receivers.
pub open spec fn forwarded(receivers: Seq<u32>, id: LowShardId, panel: Seq<ShardExtent>) -> BlockExchangeModel {
    BlockExchangeModel {
        source: ViewModel { shard: id, extents: panel },
        destinations: Seq::new(
            receivers.len(),
            |i: int| ViewModel { shard: LowShardId(receivers[i]), extents: panel },
        ),
        order: CopyOrder::Physical,
    }
}

/// Sends one panel through an idle tile. All of it must come from the planned
/// transfers.
pub open spec fn gather_panel<M: BlockTarget>(
    target: &M,
    s: BuilderModel,
    transfers: Seq<BlockExchangeModel>,
    plan: GatherPlan,
    receiver: TypeModel,
    panel: Seq<ShardExtent>,
    w: Gathered,
) -> BlockStepWith<Gathered> {
    match idle_below(s.shards, transfers, plan, w.used, s.tile_count as int) {
        None => Err(ExpansionError::InvalidCopyPlan),
        Some(tile) => {
            let block = panel_block_model(receiver, tile, panel);
            match push_block(s, block) {
                Err(e) => Err(e),
                Ok((next, id)) => match target.spec_storage_bytes(
                    block.tensor_type.format,
                    panel,
                ) {
                    Err(e) => Err(ExpansionError::Storage(e)),
                    Ok(expected) => match panel_parts_from(
                        transfers,
                        plan.transfers,
                        panel,
                        receiver.format.precision.spec_bytes() as int,
                        id,
                        0,
                        0,
                        Seq::empty(),
                    ) {
                        Err(e) => Err(e),
                        Ok((covered, parts)) => if covered != expected || !chains_from(
                            parts,
                            panel,
                            panel[panel.len() - 2].start,
                            parts.len() as int,
                        ) {
                            Err(ExpansionError::InvalidCopyPlan)
                        } else {
                            Ok(
                                (
                                    next,
                                    Gathered {
                                        used: w.used.push(tile),
                                        gather: w.gather + parts,
                                        forward: w.forward.push(
                                            forwarded(plan.receivers, id, panel),
                                        ),
                                        ..w
                                    },
                                ),
                            )
                        },
                    },
                },
            }
        },
    }
}

/// Sends the panels of a plan from `k` on.
pub open spec fn gather_panels_from<M: BlockTarget>(
    target: &M,
    s: BuilderModel,
    transfers: Seq<BlockExchangeModel>,
    plan: GatherPlan,
    receiver: TypeModel,
    k: int,
    w: Gathered,
) -> BlockStepWith<Gathered>
    decreases plan.panels.len() - k,
{
    if k >= plan.panels.len() {
        Ok((s, Gathered { removed: w.removed + plan.transfers, ..w }))
    } else {
        match gather_panel(target, s, transfers, plan, receiver, plan.panels[k], w) {
            Err(e) => Err(e),
            Ok((next, more)) => gather_panels_from(
                target,
                next,
                transfers,
                plan,
                receiver,
                k + 1,
                more,
            ),
        }
    }
}

/// Sends the panels of the plans from `p` on.
pub open spec fn gather_all_from<M: BlockTarget>(
    target: &M,
    s: BuilderModel,
    transfers: Seq<BlockExchangeModel>,
    plans: Seq<GatherPlan>,
    p: int,
    w: Gathered,
) -> BlockStepWith<Gathered>
    decreases plans.len() - p,
{
    if p >= plans.len() {
        Ok((s, w))
    } else {
        match gather_panels_from(
            target,
            s,
            transfers,
            plans[p],
            s.shards[plans[p].receivers[0] as int].tensor_type,
            0,
            w,
        ) {
            Err(e) => Err(e),
            Ok((next, more)) => gather_all_from(target, next, transfers, plans, p + 1, more),
        }
    }
}

/// `done` followed by the transfers from `t` on that do not go through panels.
pub open spec fn kept_from(
    transfers: Seq<BlockExchangeModel>,
    removed: Seq<usize>,
    t: int,
    done: Seq<BlockExchangeModel>,
) -> Seq<BlockExchangeModel>
    decreases transfers.len() - t,
{
    if t >= transfers.len() {
        done
    } else {
        kept_from(
            transfers,
            removed,
            t + 1,
            if removed.contains(t as usize) {
                done
            } else {
                done.push(transfers[t])
            },
        )
    }
}

/// All blocks that transfers name exist.
pub open spec fn transfers_known(shards: Seq<ShardModel>, transfers: Seq<BlockExchangeModel>) -> bool {
    forall|t: int|
        0 <= t < transfers.len() ==> (#[trigger] transfers[t]).source.shard.0 < shards.len()
}

/// Transfers are left as they are before a panel is tried: they depend on each
/// other, or nothing can be gathered.
pub open spec fn refuses_gathering<M: BlockTarget>(
    target: &M,
    s: BuilderModel,
    transfers: Seq<BlockExchangeModel>,
) -> bool {
    ||| !transfers_known(s.shards, transfers)
    ||| reads_written(s.shards, transfers)
    ||| match gather_plans_from(
        target,
        s,
        gatherable_from(s.shards, transfers, 0, Seq::empty()),
        0,
        0,
        Seq::empty(),
    ) {
        Err(_) => true,
        Ok(plans) => plans.len() == 0,
    }
}

/// The second graph has blocks that the first has not, and is otherwise the
/// same.
pub open spec fn only_adds_blocks(s: BuilderModel, t: BuilderModel) -> bool {
    s.shards.is_prefix_of(t.shards) && t == (BuilderModel { shards: t.shards, ..s })
}

/// Replaces transfers to several receivers by transfers into panels on idle
/// tiles, and from there to all receivers.
pub open spec fn gathered<M: BlockTarget>(
    target: &M,
    s: BuilderModel,
    transfers: Seq<BlockExchangeModel>,
) -> BlockStepWith<Seq<BlockExchangeModel>> {
    if !transfers_known(s.shards, transfers) || reads_written(s.shards, transfers) {
        Err(ExpansionError::InvalidCopyPlan)
    } else {
        match gather_plans_from(
            target,
            s,
            gatherable_from(s.shards, transfers, 0, Seq::empty()),
            0,
            0,
            Seq::empty(),
        ) {
            Err(e) => Err(e),
            Ok(plans) => if plans.len() == 0 {
                Err(ExpansionError::InvalidCopyPlan)
            } else {
                match gather_all_from(
                    target,
                    s,
                    transfers,
                    plans,
                    0,
                    Gathered {
                        used: Seq::empty(),
                        removed: Seq::empty(),
                        gather: Seq::empty(),
                        forward: Seq::empty(),
                    },
                ) {
                    Err(e) => Err(e),
                    Ok((next, w)) => Ok(
                        (
                            next,
                            kept_from(transfers, w.removed, 0, Seq::empty()) + w.gather
                                + w.forward,
                        ),
                    ),
                }
            },
        }
    }
}

// ---------------------------------------------------------------- carrying out

/// A [`GatherPlan`] as it is handed on.
#[derive(Debug)]
pub struct Plan {
    pub receivers: Vec<u32>,
    pub transfers: Vec<usize>,
    pub panels: Vec<Region>,
}

impl View for Plan {
    type V = GatherPlan;

    open spec fn view(&self) -> GatherPlan {
        GatherPlan {
            receivers: self.receivers@,
            transfers: self.transfers@,
            panels: deep(self.panels@),
        }
    }
}

/// [`Gathered`] as it is handed on.
#[derive(Debug)]
pub struct Gathering {
    pub used: Vec<u16>,
    pub removed: Vec<usize>,
    pub gather: Vec<BlockExchange>,
    pub forward: Vec<BlockExchange>,
}

impl View for Gathering {
    type V = Gathered;

    open spec fn view(&self) -> Gathered {
        Gathered {
            used: self.used@,
            removed: self.removed@,
            gather: deep(self.gather@),
            forward: deep(self.forward@),
        }
    }
}

fn new_part_along(view: &Vec<ShardExtent>, axis: usize, start: u32, step: u32) -> (r: Region)
    requires
        axis < view@.len(),
        start + step <= u32::MAX,
    ensures
        r@ == part_along(view@, axis as int, start as int, step as int),
{
    let mut extents = copy_all(view.as_slice());
    let end: u32 = start + step;
    extents.set(
        axis,
        ShardExtent { axis: view[axis].axis, start, logical_end: end, physical_end: end },
    );
    Region { extents }
}

/// The rectangles have the rank, and the same ranges as `block` along the axes
/// from `first` on.
pub open spec fn undivided(
    views: Seq<Seq<ShardExtent>>,
    block: Seq<ShardExtent>,
    first: int,
) -> bool {
    forall|i: int|
        0 <= i < views.len() ==> (#[trigger] views[i]).len() == block.len() && forall|a: int|
            first <= a < block.len() ==> views[i][a] == block[a]
}

fn split_along(views: &Vec<Region>, axis: usize, step: u32, Ghost(block): Ghost<
    Seq<ShardExtent>,
>) -> (r: Vec<Region>)
    requires
        step > 0,
        axis < block.len(),
        undivided(deep(views@), block, axis as int),
        block[axis as int].start % step == 0,
        block[axis as int].logical_end % step == 0,
    ensures
        deep(r@) == split_along_from(deep(views@), axis as int, step as int, 0, Seq::empty()),
        undivided(deep(r@), block, axis + 1),
{
    broadcast use group_deep;

    let ghost model = deep(views@);
    let mut parts: Vec<Region> = Vec::new();
    assert(deep(parts@) =~= Seq::<Seq<ShardExtent>>::empty());
    let mut i: usize = 0;
    while i < views.len()
        invariant
            i <= views@.len(),
            undivided(deep(parts@), block, axis + 1),
            split_along_from(model, axis as int, step as int, 0, Seq::empty())
                == split_along_from(model, axis as int, step as int, i as int, deep(parts@)),
        decreases views@.len() - i,
    {
        assert(model[i as int] == views@[i as int]@);
        let view = &views[i].extents;
        let range: ShardExtent = view[axis];
        assert(range == block[axis as int]);
        let ghost before = deep(parts@);
        let mut start: u32 = range.start;
        while start < range.logical_end
            invariant
                start % step == 0,
                undivided(deep(parts@), block, axis + 1),
                parts_from(view@, axis as int, range.start as int, step as int, before)
                    == parts_from(view@, axis as int, start as int, step as int, deep(parts@)),
            decreases
                    (if start < range.logical_end {
                        range.logical_end - start
                    } else {
                        0
                    }),
        {
            proof {
                lemma_next_multiple(start as int, range.logical_end as int, step as int);
            }
            let ghost prior = deep(parts@);
            let part = new_part_along(view, axis, start, step);
            parts.push(part);
            assert(deep(parts@) == prior.push(part@));
            assert forall|k: int| 0 <= k < parts@.len() implies (#[trigger] deep(
                parts@,
            )[k]).len() == block.len() && forall|a: int|
                axis + 1 <= a < block.len() ==> deep(parts@)[k][a] == block[a] by {
                if k < prior.len() {
                    assert(deep(parts@)[k] == prior[k]);
                } else {
                    assert(deep(parts@)[k] == part@);
                }
            }
            start = start + step;
        }
        i += 1;
    }
    parts
}

/// Between multiples of a step there is room for the step.
proof fn lemma_next_multiple(start: int, end: int, step: int)
    requires
        0 <= start < end,
        step > 0,
        start % step == 0,
        end % step == 0,
    ensures
        start + step <= end,
        (start + step) % step == 0,
{
    vstd::arithmetic::div_mod::lemma_fundamental_div_mod(start, step);
    vstd::arithmetic::div_mod::lemma_fundamental_div_mod(end, step);
    let a = start / step;
    let b = end / step;
    assert(a < b) by (nonlinear_arith)
        requires
            step * a < step * b,
            step > 0,
    ;
    assert(step * b >= step * a + step) by (nonlinear_arith)
        requires
            a + 1 <= b,
            step > 0,
    ;
    vstd::arithmetic::div_mod::lemma_mod_add_multiples_vanish(start, step);
}

/// The panels of a block that can be sent on as they are.
pub fn find_panel_views<M: BlockTarget>(target: &M, block: &LowShard) -> (r: Option<Vec<Region>>)
    ensures
        match r {
            Some(panels) => panel_views(target, block@) == Some(deep(panels@)) && undivided(
                deep(panels@),
                block@.extents,
                block@.extents.len() as int,
            ) && block@.extents.len() >= 2,
            None => panel_views(target, block@) is None,
        },
{
    broadcast use group_deep;

    let rank = block.extents.len();
    if rank < 2 {
        return None;
    }
    let columns: ShardExtent = block.extents[rank - 1];
    let width: u32 = match block.tensor_type.format.layout.order {
        ElementOrder::RowMajor => {
            if columns.physical_end < columns.start {
                return None;
            }
            columns.physical_end - columns.start
        },
        ElementOrder::Amp(AmpOrder::Left) => match target.retained_linear_column_grain(
            block.tensor_type.format.layout.order,
            block.tensor_type.format.precision,
        ) {
            Some(width) => width,
            None => {
                return None;
            },
        },
        _ => {
            return None;
        },
    };
    if width == 0 || columns.start % width != 0 || columns.logical_end % width != 0 {
        return None;
    }
    let ghost extents = block@.extents;
    let mut views: Vec<Region> = Vec::new();
    views.push(Region { extents: copy_all(block.extents.as_slice()) });
    assert(deep(views@) =~= seq![extents]);
    let mut axis: usize = 0;
    while axis < rank - 2
        invariant
            axis <= rank - 2,
            undivided(deep(views@), extents, axis as int),
            split_outer_from(seq![extents], 0, rank - 2) == split_outer_from(
                deep(views@),
                axis as int,
                rank - 2,
            ),
        decreases rank - axis,
    {
        views = split_along(&views, axis, 1, Ghost(extents));
        axis += 1;
    }
    assert(undivided(deep(views@), extents, rank - 1));
    let parts = split_along(&views, rank - 1, width, Ghost(extents));
    let ghost whole = deep(parts@);
    let mut panels: Vec<Region> = Vec::new();
    let mut i: usize = 0;
    while i < parts.len()
        invariant
            i <= parts@.len(),
            panels@.len() == i,
            forall|k: int|
                0 <= k < i ==> #[trigger] deep(panels@)[k] == without_row_padding(whole[k]),
        decreases parts@.len() - i,
    {
        assert(whole[i as int] == parts@[i as int]@);
        let mut extents = copy_all(parts[i].extents.as_slice());
        let rows: ShardExtent = extents[rank - 2];
        extents.set(
            rank - 2,
            ShardExtent {
                axis: rows.axis,
                start: rows.start,
                logical_end: rows.logical_end,
                physical_end: rows.logical_end,
            },
        );
        let ghost prior = deep(panels@);
        let panel = Region { extents };
        assert(panel@ == without_row_padding(whole[i as int]));
        panels.push(panel);
        assert forall|k: int| 0 <= k < i + 1 implies #[trigger] deep(panels@)[k]
            == without_row_padding(whole[k]) by {
            if k < i {
                assert(deep(panels@)[k] == prior[k]);
            }
        }
        i += 1;
    }
    assert(deep(panels@) =~= Seq::new(whole.len(), |i: int| without_row_padding(whole[i])));
    Some(panels)
}

fn find_common_part(a: &Vec<ShardExtent>, b: &Vec<ShardExtent>) -> (r: Option<Vec<ShardExtent>>)
    ensures
        match r {
            Some(part) => common_part(a@, b@) == Some(part@),
            None => common_part(a@, b@) is None,
        },
{
    if a.len() != b.len() {
        return None;
    }
    let mut part: Vec<ShardExtent> = Vec::new();
    let mut i: usize = 0;
    while i < a.len()
        invariant
            i <= a@.len(),
            part@.len() == i,
            forall|k: int|
                0 <= k < i ==> part@[k] == common_extent(a@[k], b@[k]) && (
                #[trigger] common_extent(a@[k], b@[k])).start < common_extent(
                    a@[k],
                    b@[k],
                ).physical_end,
        decreases a@.len() - i,
    {
        let start: u32 = max_u32(a[i].start, b[i].start);
        let end: u32 = min_u32(a[i].physical_end, b[i].physical_end);
        let extent = ShardExtent { axis: a[i].axis, start, logical_end: end, physical_end: end };
        assert(extent == common_extent(a@[i as int], b@[i as int]));
        if start >= end {
            return None;
        }
        part.push(extent);
        i += 1;
    }
    assert(part@ =~= Seq::new(a@.len(), |i: int| common_extent(a@[i], b@[i])));
    Some(part)
}

fn is_without_padding(extents: &Vec<ShardExtent>) -> (r: bool)
    ensures
        r == is_dense(extents@),
{
    let mut i: usize = 0;
    while i < extents.len()
        invariant
            i <= extents@.len(),
            forall|k: int|
                0 <= k < i ==> (#[trigger] extents@[k]).logical_end == extents@[k].physical_end,
        decreases extents@.len() - i,
    {
        if extents[i].logical_end != extents[i].physical_end {
            return false;
        }
        i += 1;
    }
    true
}

fn sorted_ids(views: &Vec<ShardView>) -> (r: Vec<u32>)
    ensures
        r@ == sorted_ids_from(deep(views@), 0, Seq::empty()),
{
    broadcast use group_deep;

    let ghost model = deep(views@);
    let mut ids: Vec<u32> = Vec::new();
    assert(ids@ =~= Seq::<u32>::empty());
    let mut d: usize = 0;
    while d < views.len()
        invariant
            d <= views@.len(),
            sorted_ids_from(model, 0, Seq::empty()) == sorted_ids_from(model, d as int, ids@),
        decreases views@.len() - d,
    {
        assert(model[d as int] == views@[d as int]@);
        let id: u32 = views[d].shard.0;
        let mut i: usize = 0;
        while i < ids.len() && ids[i] <= id
            invariant
                i <= ids@.len(),
                place_from(ids@, id, 0) == place_from(ids@, id, i as int),
            decreases ids@.len() - i,
        {
            i += 1;
        }
        ids.insert(i, id);
        d += 1;
    }
    ids
}

fn contains_tile(tiles: &Vec<u16>, tile: u16) -> (r: bool)
    ensures
        r == tiles@.contains(tile),
{
    let mut i: usize = 0;
    while i < tiles.len()
        invariant
            i <= tiles@.len(),
            forall|k: int| 0 <= k < i ==> tiles@[k] != tile,
        decreases tiles@.len() - i,
    {
        if tiles[i] == tile {
            assert(tiles@[i as int] == tile);
            return true;
        }
        i += 1;
    }
    false
}

fn contains_index(indices: &Vec<usize>, index: usize) -> (r: bool)
    ensures
        r == indices@.contains(index),
{
    let mut i: usize = 0;
    while i < indices.len()
        invariant
            i <= indices@.len(),
            forall|k: int| 0 <= k < i ==> indices@[k] != index,
        decreases indices@.len() - i,
    {
        if indices[i] == index {
            assert(indices@[i as int] == index);
            return true;
        }
        i += 1;
    }
    false
}

fn count_rectangle_bytes(extents: &Vec<ShardExtent>, width: u64) -> (r: ExpansionResult<u64>)
    ensures
        match r {
            Ok(bytes) => rectangle_bytes_from(extents@, 0, width as int) == Ok::<
                int,
                ExpansionError,
            >(bytes as int),
            Err(e) => rectangle_bytes_from(extents@, 0, width as int) == Err::<
                int,
                ExpansionError,
            >(e),
        },
{
    let mut total: u64 = width;
    let mut i: usize = 0;
    while i < extents.len()
        invariant
            i <= extents@.len(),
            rectangle_bytes_from(extents@, 0, width as int) == rectangle_bytes_from(
                extents@,
                i as int,
                total as int,
            ),
        decreases extents@.len() - i,
    {
        let extent: ShardExtent = extents[i];
        if extent.physical_end < extent.start {
            return Err(ExpansionError::IdOverflow);
        }
        total = match total.checked_mul((extent.physical_end - extent.start) as u64) {
            Some(total) => total,
            None => {
                return Err(ExpansionError::IdOverflow);
            },
        };
        i += 1;
    }
    Ok(total)
}

/// All parts have the rank.
pub open spec fn parts_ranked(parts: Seq<BlockExchangeModel>, rank: nat) -> bool {
    forall|i: int| 0 <= i < parts.len() ==> (#[trigger] parts[i]).source.extents.len() == rank
}

fn parts_chain(parts: &Vec<BlockExchange>, panel: &Vec<ShardExtent>) -> (r: bool)
    requires
        panel@.len() >= 2,
        parts_ranked(deep(parts@), panel@.len()),
    ensures
        r == chains_from(
            deep(parts@),
            panel@,
            panel@[panel@.len() - 2].start,
            parts@.len() as int,
        ),
{
    broadcast use group_deep;

    let ghost model = deep(parts@);
    let row = panel.len() - 2;
    let mut end: u32 = panel[row].start;
    let mut count: usize = parts.len();
    while count > 0
        invariant
            count <= parts@.len(),
            chains_from(model, panel@, panel@[row as int].start, parts@.len() as int)
                == chains_from(model, panel@, end, count as int),
        decreases count,
    {
        let mut found: Option<usize> = None;
        let mut i: usize = 0;
        while i < parts.len() && found.is_none()
            invariant
                i <= parts@.len(),
                match found {
                    Some(f) => part_at_from(model, panel@, end, 0) == Some(f as int) && f
                        < parts@.len(),
                    None => part_at_from(model, panel@, end, 0) == part_at_from(
                        model,
                        panel@,
                        end,
                        i as int,
                    ),
                },
            decreases parts@.len() - i,
        {
            assert(model[i as int] == parts@[i as int]@);
            let extents = &parts[i].source.extents;
            if extents[row].start == end && extents[row + 1] == panel[row + 1] {
                found = Some(i);
            }
            i += 1;
        }
        match found {
            None => {
                return false;
            },
            Some(f) => {
                assert(model[f as int] == parts@[f as int]@);
                end = parts[f].source.extents[row].physical_end;
            },
        }
        count -= 1;
    }
    end == panel[row].physical_end
}

fn new_forward(receivers: &Vec<u32>, id: LowShardId, panel: &Vec<ShardExtent>) -> (r: BlockExchange)
    ensures
        r@ == forwarded(receivers@, id, panel@),
{
    broadcast use group_deep;

    let mut destinations: Vec<ShardView> = Vec::new();
    let mut i: usize = 0;
    while i < receivers.len()
        invariant
            i <= receivers@.len(),
            destinations@.len() == i,
            forall|k: int|
                0 <= k < i ==> (#[trigger] destinations@[k])@ == (ViewModel {
                    shard: LowShardId(receivers@[k]),
                    extents: panel@,
                }),
        decreases receivers@.len() - i,
    {
        destinations.push(
            ShardView {
                shard: LowShardId(receivers[i]),
                extents: copy_all(panel.as_slice()),
            },
        );
        i += 1;
    }
    let exchange = BlockExchange {
        source: ShardView { shard: id, extents: copy_all(panel.as_slice()) },
        destinations,
        order: CopyOrder::Physical,
    };
    assert(exchange@.destinations =~= forwarded(receivers@, id, panel@).destinations);
    exchange
}

fn duplicate_exchange(exchange: &BlockExchange) -> (r: BlockExchange)
    ensures
        r@ == exchange@,
{
    BlockExchange {
        source: exchange.source.duplicate(),
        destinations: duplicate_all(&exchange.destinations),
        order: exchange.order,
    }
}

/// All planned transfers and receivers exist.
pub open spec fn plan_known(
    shards: Seq<ShardModel>,
    transfers: Seq<BlockExchangeModel>,
    plan: GatherPlan,
) -> bool {
    &&& plan.receivers.len() > 0
    &&& forall|i: int|
        0 <= i < plan.receivers.len() ==> (#[trigger] plan.receivers[i]) < shards.len()
    &&& forall|i: int|
        0 <= i < plan.transfers.len() ==> (#[trigger] plan.transfers[i]) < transfers.len()
    &&& forall|k: int| 0 <= k < plan.panels.len() ==> (#[trigger] plan.panels[k]).len() >= 2
}

impl TileGraphBuilder {
    fn some_read_is_written(&self, transfers: &Vec<BlockExchange>) -> (r: bool)
        ensures
            r == reads_written(self@.shards, deep(transfers@)),
    {
        broadcast use group_deep;

        let ghost model = deep(transfers@);
        let ghost shards = self@.shards;
        let mut t: usize = 0;
        while t < transfers.len()
            invariant
                t <= transfers@.len(),
                forall|x: int, u: int, d: int|
                    0 <= x < t && 0 <= u < model.len() && 0 <= d < model[u].destinations.len()
                        ==> backing(shards, (#[trigger] model[x]).source.shard) != backing(
                        shards,
                        (#[trigger] model[u].destinations[d]).shard,
                    ),
            decreases transfers@.len() - t,
        {
            assert(model[t as int] == transfers@[t as int]@);
            let root = self.backing(transfers[t].source.shard);
            let mut u: usize = 0;
            while u < transfers.len()
                invariant
                    u <= transfers@.len(),
                    forall|v: int, d: int|
                        0 <= v < u && 0 <= d < model[v].destinations.len() ==> root != backing(
                            shards,
                            (#[trigger] model[v].destinations[d]).shard,
                        ),
                decreases transfers@.len() - u,
            {
                assert(model[u as int] == transfers@[u as int]@);
                let destinations = &transfers[u].destinations;
                let mut d: usize = 0;
                while d < destinations.len()
                    invariant
                        d <= destinations@.len(),
                        forall|e: int|
                            0 <= e < d ==> root != backing(
                                shards,
                                (#[trigger] model[u as int].destinations[e]).shard,
                            ),
                    decreases destinations@.len() - d,
                {
                    assert(model[u as int].destinations[d as int] == destinations@[d as int]@);
                    if self.backing(destinations[d].shard) == root {
                        return true;
                    }
                    d += 1;
                }
                u += 1;
            }
            t += 1;
        }
        false
    }

    fn is_received_alike(&self, source: &ShardView, receiver: &ShardView) -> (r: bool)
        ensures
            r == receives_alike(self@.shards, source@, receiver@),
    {
        broadcast use group_deep;

        if source.shard.0 as usize >= self.shards.len() || receiver.shard.0 as usize
            >= self.shards.len() {
            return false;
        }
        let from = &self.shards[source.shard.0 as usize].tensor_type.format;
        let to = &self.shards[receiver.shard.0 as usize].tensor_type.format;
        from.precision == to.precision && from.layout.order == to.layout.order && same_extents(
            receiver.extents.as_slice(),
            source.extents.as_slice(),
        ) && is_without_padding(&receiver.extents)
    }

    fn can_be_gathered(&self, transfer: &BlockExchange) -> (r: bool)
        ensures
            r == can_gather(self@.shards, transfer@),
    {
        broadcast use group_deep;

        if transfer.destinations.len() < 2 || transfer.order == CopyOrder::Panels {
            return false;
        }
        let ghost model = transfer@.destinations;
        let mut d: usize = 0;
        while d < transfer.destinations.len()
            invariant
                d <= transfer.destinations@.len(),
                forall|e: int|
                    0 <= e < d ==> receives_alike(
                        self@.shards,
                        transfer@.source,
                        #[trigger] model[e],
                    ),
            decreases transfer.destinations@.len() - d,
        {
            assert(model[d as int] == transfer.destinations@[d as int]@);
            if !self.is_received_alike(&transfer.source, &transfer.destinations[d]) {
                return false;
            }
            d += 1;
        }
        true
    }

    fn gatherable(&self, transfers: &Vec<BlockExchange>) -> (r: Groups<usize>)
        ensures
            r@ == gatherable_from(self@.shards, deep(transfers@), 0, Seq::empty()),
            forall|g: int, i: int|
                0 <= g < r@.len() && 0 <= i < r@[g].items.len() ==> (
                #[trigger] r@[g].items[i]) < transfers@.len(),
    {
        broadcast use group_deep;

        let ghost model = deep(transfers@);
        let mut groups: Groups<usize> = Groups::new();
        let mut t: usize = 0;
        while t < transfers.len()
            invariant
                t <= transfers@.len(),
                gatherable_from(self@.shards, model, 0, Seq::empty()) == gatherable_from(
                    self@.shards,
                    model,
                    t as int,
                    groups@,
                ),
                forall|g: int, i: int|
                    0 <= g < groups@.len() && 0 <= i < groups@[g].items.len() ==> (
                    #[trigger] groups@[g].items[i]) < transfers@.len(),
            decreases transfers@.len() - t,
        {
            assert(model[t as int] == transfers@[t as int]@);
            if self.can_be_gathered(&transfers[t]) {
                let key = sorted_ids(&transfers[t].destinations);
                proof {
                    lemma_insert_bounded(groups@, key@, t, transfers@.len());
                }
                groups.insert(key, t);
            }
            t += 1;
        }
        groups
    }

    fn have_same_rectangles(&self, receivers: &Vec<u32>) -> (r: bool)
        ensures
            r == same_rectangles(self@.shards, receivers@),
    {
        broadcast use group_deep;

        let ghost shards = self@.shards;
        let mut i: usize = 0;
        while i < receivers.len()
            invariant
                i <= receivers@.len(),
                forall|k: int|
                    0 <= k < i ==> (#[trigger] receivers@[k]) < shards.len()
                        && shards[receivers@[k] as int].extents
                        == shards[receivers@[0] as int].extents,
            decreases receivers@.len() - i,
        {
            if receivers[i] as usize >= self.shards.len() {
                return false;
            }
            if receivers[0] as usize >= self.shards.len() {
                return false;
            }
            assert(shards[receivers@[i as int] as int] == self.shards@[receivers@[i as int] as int]@);
            assert(shards[receivers@[0] as int] == self.shards@[receivers@[0] as int]@);
            if !same_extents(
                self.shards[receivers[i] as usize].extents.as_slice(),
                self.shards[receivers[0] as usize].extents.as_slice(),
            ) {
                return false;
            }
            i += 1;
        }
        true
    }

    fn gather_plans<M: BlockTarget>(
        &self,
        target: &M,
        groups: &Groups<usize>,
        transfers: &Vec<BlockExchange>,
    ) -> (r: ExpansionResult<Vec<Plan>>)
        requires
            forall|g: int, i: int|
                0 <= g < groups@.len() && 0 <= i < groups@[g].items.len() ==> (
                #[trigger] groups@[g].items[i]) < transfers@.len(),
        ensures
            obtained_all(r, gather_plans_from(target, self@, groups@, 0, 0, Seq::empty())),
            r matches Ok(plans) ==> forall|p: int|
                0 <= p < plans@.len() ==> plan_known(
                    self@.shards,
                    deep(transfers@),
                    #[trigger] deep(plans@)[p],
                ),
    {
        broadcast use group_deep;

        let mut plans: Vec<Plan> = Vec::new();
        assert(deep(plans@) =~= Seq::<GatherPlan>::empty());
        let mut count: usize = 0;
        let mut g: usize = 0;
        while g < groups.entries.len()
            invariant
                g <= groups.entries@.len(),
                count <= self.tile_count,
                gather_plans_from(target, self@, groups@, 0, 0, Seq::empty())
                    == gather_plans_from(
                    target,
                    self@,
                    groups@,
                    g as int,
                    count as int,
                    deep(plans@),
                ),
                forall|p: int|
                    0 <= p < plans@.len() ==> plan_known(
                        self@.shards,
                        deep(transfers@),
                        #[trigger] deep(plans@)[p],
                    ),
            decreases groups.entries@.len() - g,
        {
            let group = &groups.entries[g];
            assert(groups@[g as int] == group@);
            if group.key.len() > 0 && self.have_same_rectangles(&group.key) {
                let ghost receivers = group.key@;
                assert(receivers[0] < self@.shards.len());
                match find_panel_views(target, &self.shards[group.key[0] as usize]) {
                    None => {},
                    Some(panels) => {
                        if panels.len() > self.tile_count as usize - count {
                            return Err(ExpansionError::InvalidCopyPlan);
                        }
                        count = count + panels.len();
                        let ghost prior = deep(plans@);
                        let plan = Plan {
                            receivers: copy_all(group.key.as_slice()),
                            transfers: copy_all(group.items.as_slice()),
                            panels,
                        };
                        proof {
                            assert(group@.items =~= group.items@);
                            assert forall|i: int| 0 <= i < plan@.transfers.len() implies (
                            #[trigger] plan@.transfers[i]) < deep(transfers@).len() by {
                                assert(groups@[g as int].items[i] < transfers@.len());
                            }
                            assert(plan_known(self@.shards, deep(transfers@), plan@));
                        }
                        plans.push(plan);
                        assert(deep(plans@) == prior.push(plan@));
                        assert forall|p: int| 0 <= p < plans@.len() implies plan_known(
                            self@.shards,
                            deep(transfers@),
                            #[trigger] deep(plans@)[p],
                        ) by {
                            if p < prior.len() {
                                assert(deep(plans@)[p] == prior[p]);
                            }
                        }
                    },
                }
            }
            g += 1;
        }
        Ok(plans)
    }

    fn plan_takes_part(&self, transfers: &Vec<BlockExchange>, plan: &Plan, tile: u16) -> (r: bool)
        requires
            plan_known(self@.shards, deep(transfers@), plan@),
            transfers_known(self@.shards, deep(transfers@)),
        ensures
            r == takes_part(self@.shards, deep(transfers@), plan@, tile),
    {
        broadcast use group_deep;

        let ghost shards = self@.shards;
        let ghost model = deep(transfers@);
        let mut i: usize = 0;
        while i < plan.receivers.len()
            invariant
                i <= plan.receivers@.len(),
                forall|k: int|
                    0 <= k < i ==> #[trigger] shards[plan.receivers@[k] as int].tile != tile,
            decreases plan.receivers@.len() - i,
        {
            assert(plan@.receivers[i as int] < shards.len());
            if self.shards[plan.receivers[i] as usize].tile == tile {
                assert(shards[plan@.receivers[i as int] as int].tile == tile);
                return true;
            }
            i += 1;
        }
        let mut i: usize = 0;
        while i < plan.transfers.len()
            invariant
                i <= plan.transfers@.len(),
                forall|k: int|
                    0 <= k < i
                        ==> shards[model[#[trigger] plan.transfers@[k] as int].source.shard.0 as int].tile
                        != tile,
            decreases plan.transfers@.len() - i,
        {
            assert(plan@.transfers[i as int] < model.len());
            let index: usize = plan.transfers[i];
            assert(model[index as int] == transfers@[index as int]@);
            assert(model[index as int].source.shard.0 < shards.len());
            if self.shards[transfers[index].source.shard.0 as usize].tile == tile {
                assert(shards[model[plan@.transfers[i as int] as int].source.shard.0 as int].tile
                    == tile);
                return true;
            }
            i += 1;
        }
        false
    }

    fn find_idle(&self, transfers: &Vec<BlockExchange>, plan: &Plan, used: &Vec<u16>) -> (r: Option<
        u16,
    >)
        requires
            plan_known(self@.shards, deep(transfers@), plan@),
            transfers_known(self@.shards, deep(transfers@)),
        ensures
            r == idle_below(
                self@.shards,
                deep(transfers@),
                plan@,
                used@,
                self@.tile_count as int,
            ),
    {
        let mut end: u16 = self.tile_count;
        while end > 0
            invariant
                end <= self.tile_count,
                idle_below(
                    self@.shards,
                    deep(transfers@),
                    plan@,
                    used@,
                    self@.tile_count as int,
                ) == idle_below(self@.shards, deep(transfers@), plan@, used@, end as int),
            decreases end,
        {
            let tile: u16 = end - 1;
            if !contains_tile(used, tile) && !self.plan_takes_part(transfers, plan, tile) {
                return Some(tile);
            }
            end = tile;
        }
        None
    }

    fn gather_panel<M: BlockTarget>(
        &mut self,
        target: &M,
        transfers: &Vec<BlockExchange>,
        plan: &Plan,
        receiver: &TensorType,
        panel: &Vec<ShardExtent>,
        w: &mut Gathering,
    ) -> (r: ExpansionResult<()>)
        requires
            plan_known(old(self)@.shards, deep(transfers@), plan@),
            transfers_known(old(self)@.shards, deep(transfers@)),
            panel@.len() >= 2,
        ensures
            match r {
                Ok(_) => gather_panel(
                    target,
                    old(self)@,
                    deep(transfers@),
                    plan@,
                    receiver@,
                    panel@,
                    old(w)@,
                ) == Ok::<(BuilderModel, Gathered), ExpansionError>((final(self)@, final(w)@)),
                Err(e) => gather_panel(
                    target,
                    old(self)@,
                    deep(transfers@),
                    plan@,
                    receiver@,
                    panel@,
                    old(w)@,
                ) == Err::<(BuilderModel, Gathered), ExpansionError>(e),
            },
            r is Ok ==> final(self)@.shards.len() == old(self)@.shards.len() + 1,
            r is Err ==> final(self)@ == old(self)@,
            only_adds_blocks(old(self)@, final(self)@),
    {
        broadcast use group_deep;

        let ghost model = deep(transfers@);
        let tile: u16 = match self.find_idle(transfers, plan, &w.used) {
            Some(tile) => tile,
            None => {
                return Err(ExpansionError::InvalidCopyPlan);
            },
        };
        let mut tensor_type = receiver.duplicate();
        tensor_type.format.layout.memory_class = MemoryClass::Ipu21Standard;
        let block = LowShard {
            id: LowShardId(0),
            tile,
            tensor_type,
            extents: copy_all(panel.as_slice()),
            definition: ShardDefinition::Staging,
        };
        assert(block@ == panel_block_model(receiver@, tile, panel@));
        if self.shards.len() > u32::MAX as usize {
            return Err(ExpansionError::IdOverflow);
        }
        let id = LowShardId(self.shards.len() as u32);
        let expected: u32 = match target.storage_bytes(
            &block.tensor_type.format,
            panel.as_slice(),
        ) {
            Ok(expected) => expected,
            Err(e) => {
                return Err(ExpansionError::Storage(e));
            },
        };
        let width: u64 = receiver.format.precision.bytes();
        let mut covered: u64 = 0;
        let mut parts: Vec<BlockExchange> = Vec::new();
        assert(deep(parts@) =~= Seq::<BlockExchangeModel>::empty());
        let mut i: usize = 0;
        while i < plan.transfers.len()
            invariant
                i <= plan.transfers@.len(),
                parts_ranked(deep(parts@), panel@.len()),
                panel_parts_from(
                    model,
                    plan.transfers@,
                    panel@,
                    width as int,
                    id,
                    0,
                    0,
                    Seq::empty(),
                ) == panel_parts_from(
                    model,
                    plan.transfers@,
                    panel@,
                    width as int,
                    id,
                    i as int,
                    covered as int,
                    deep(parts@),
                ),
            decreases plan.transfers@.len() - i,
        {
            assert(plan@.transfers[i as int] < model.len());
            let index: usize = plan.transfers[i];
            assert(model[index as int] == transfers@[index as int]@);
            let whole = &transfers[index];
            match find_common_part(&whole.source.extents, panel) {
                None => {},
                Some(part) => {
                    let bytes: u64 = count_rectangle_bytes(&part, width)?;
                    covered = match covered.checked_add(bytes) {
                        Some(covered) => covered,
                        None => {
                            return Err(ExpansionError::IdOverflow);
                        },
                    };
                    let ghost prior = deep(parts@);
                    let exchange = BlockExchange {
                        source: ShardView {
                            shard: whole.source.shard,
                            extents: copy_all(part.as_slice()),
                        },
                        destinations: one_view(ShardView { shard: id, extents: part }),
                        order: whole.order,
                    };
                    parts.push(exchange);
                    assert(deep(parts@) == prior.push(exchange@));
                },
            }
            i += 1;
        }
        if covered != expected as u64 || !parts_chain(&parts, panel) {
            return Err(ExpansionError::InvalidCopyPlan);
        }
        self.push_shard(block)?;
        w.used.push(tile);
        let ghost before = deep(w.gather@);
        let ghost more = deep(parts@);
        w.gather.append(&mut parts);
        assert(deep(w.gather@) =~= before + more);
        w.forward.push(new_forward(&plan.receivers, id, panel));
        Ok(())
    }

    fn gather_panels<M: BlockTarget>(
        &mut self,
        target: &M,
        transfers: &Vec<BlockExchange>,
        plan: &Plan,
        w: &mut Gathering,
    ) -> (r: ExpansionResult<()>)
        requires
            plan_known(old(self)@.shards, deep(transfers@), plan@),
            transfers_known(old(self)@.shards, deep(transfers@)),
        ensures
            match r {
                Ok(_) => gather_panels_from(
                    target,
                    old(self)@,
                    deep(transfers@),
                    plan@,
                    old(self)@.shards[plan@.receivers[0] as int].tensor_type,
                    0,
                    old(w)@,
                ) == Ok::<(BuilderModel, Gathered), ExpansionError>((final(self)@, final(w)@)),
                Err(e) => gather_panels_from(
                    target,
                    old(self)@,
                    deep(transfers@),
                    plan@,
                    old(self)@.shards[plan@.receivers[0] as int].tensor_type,
                    0,
                    old(w)@,
                ) == Err::<(BuilderModel, Gathered), ExpansionError>(e),
            },
            only_adds_blocks(old(self)@, final(self)@),
    {
        broadcast use group_deep;

        let ghost start = self@;
        let ghost before = w@;
        let ghost model = deep(transfers@);
        assert(plan@.receivers[0] < start.shards.len());
        let receiver = self.shards[plan.receivers[0] as usize].tensor_type.duplicate();
        assert(receiver@ == start.shards[plan@.receivers[0] as int].tensor_type);
        let mut k: usize = 0;
        while k < plan.panels.len()
            invariant
                k <= plan.panels@.len(),
                only_adds_blocks(start, self@),
                gather_panels_from(target, start, model, plan@, receiver@, 0, before)
                    == gather_panels_from(
                    target,
                    self@,
                    model,
                    plan@,
                    receiver@,
                    k as int,
                    w@,
                ),
            decreases plan.panels@.len() - k,
        {
            assert(plan@.panels[k as int] == plan.panels@[k as int]@);
            self.gather_panel(target, transfers, plan, &receiver, &plan.panels[k].extents, w)?;
            k += 1;
        }
        let mut list = copy_all(plan.transfers.as_slice());
        w.removed.append(&mut list);
        Ok(())
    }

    /// Replaces transfers to several receivers by transfers through panels.
    pub fn gather<M: BlockTarget>(&mut self, target: &M, transfers: &Vec<BlockExchange>) -> (r:
        ExpansionResult<Vec<BlockExchange>>)
        ensures
            match r {
                Ok(more) => gathered(target, old(self)@, deep(transfers@)) == Ok::<
                    (BuilderModel, Seq<BlockExchangeModel>),
                    ExpansionError,
                >((final(self)@, deep(more@))),
                Err(e) => gathered(target, old(self)@, deep(transfers@)) == Err::<
                    (BuilderModel, Seq<BlockExchangeModel>),
                    ExpansionError,
                >(e),
            },
            refuses_gathering(target, old(self)@, deep(transfers@)) ==> final(self)@ == old(self)@,
            only_adds_blocks(old(self)@, final(self)@),
    {
        broadcast use group_deep;

        let ghost model = deep(transfers@);
        let mut t: usize = 0;
        while t < transfers.len()
            invariant
                t <= transfers@.len(),
                forall|k: int|
                    0 <= k < t ==> (#[trigger] model[k]).source.shard.0 < self@.shards.len(),
            decreases transfers@.len() - t,
        {
            assert(model[t as int] == transfers@[t as int]@);
            if transfers[t].source.shard.0 as usize >= self.shards.len() {
                assert(!transfers_known(self@.shards, model));
                return Err(ExpansionError::InvalidCopyPlan);
            }
            t += 1;
        }
        if self.some_read_is_written(transfers) {
            return Err(ExpansionError::InvalidCopyPlan);
        }
        let groups = self.gatherable(transfers);
        let plans = self.gather_plans(target, &groups, transfers)?;
        if plans.len() == 0 {
            return Err(ExpansionError::InvalidCopyPlan);
        }
        let mut w = Gathering {
            used: Vec::new(),
            removed: Vec::new(),
            gather: Vec::new(),
            forward: Vec::new(),
        };
        proof {
            assert(w@.used =~= Seq::<u16>::empty());
            assert(w@.removed =~= Seq::<usize>::empty());
            assert(w@.gather =~= Seq::<BlockExchangeModel>::empty());
            assert(w@.forward =~= Seq::<BlockExchangeModel>::empty());
        }
        let ghost start = self@;
        let ghost fresh = w@;
        let ghost list = deep(plans@);
        let mut p: usize = 0;
        while p < plans.len()
            invariant
                p <= plans@.len(),
                only_adds_blocks(start, self@),
                gather_all_from(target, start, model, list, 0, fresh) == gather_all_from(
                    target,
                    self@,
                    model,
                    list,
                    p as int,
                    w@,
                ),
            decreases plans@.len() - p,
        {
            assert(list[p as int] == plans@[p as int]@);
            assert(plan_known(start.shards, model, list[p as int]));
            self.gather_panels(target, transfers, &plans[p], &mut w)?;
            p += 1;
        }
        let ghost removed = w.removed@;
        let mut result: Vec<BlockExchange> = Vec::new();
        assert(deep(result@) =~= Seq::<BlockExchangeModel>::empty());
        let mut t: usize = 0;
        while t < transfers.len()
            invariant
                t <= transfers@.len(),
                kept_from(model, removed, 0, Seq::empty()) == kept_from(
                    model,
                    removed,
                    t as int,
                    deep(result@),
                ),
            decreases transfers@.len() - t,
        {
            assert(model[t as int] == transfers@[t as int]@);
            if !contains_index(&w.removed, t) {
                result.push(duplicate_exchange(&transfers[t]));
            }
            t += 1;
        }
        let ghost kept = deep(result@);
        let ghost gather = w@.gather;
        let ghost forward = w@.forward;
        result.append(&mut w.gather);
        assert(deep(result@) =~= kept + gather);
        result.append(&mut w.forward);
        assert(deep(result@) =~= kept + gather + forward);
        Ok(result)
    }
}

/// Filing an index keeps all indices below a bound.
proof fn lemma_insert_bounded(groups: Seq<GroupModel<usize>>, key: Seq<u32>, item: usize, bound: nat)
    requires
        item < bound,
        forall|g: int, i: int|
            0 <= g < groups.len() && 0 <= i < groups[g].items.len() ==> (
            #[trigger] groups[g].items[i]) < bound,
    ensures
        forall|g: int, i: int|
            0 <= g < groups_insert(groups, key, item).len() && 0 <= i < groups_insert(
                groups,
                key,
                item,
            )[g].items.len() ==> (#[trigger] groups_insert(groups, key, item)[g].items[i]) < bound,
{
    crate::order::lemma_slot_bounds(groups, key);
    let filed = groups_insert(groups, key, item);
    let slot = crate::order::slot_from(groups, key, 0);
    assert forall|g: int, i: int|
        0 <= g < filed.len() && 0 <= i < filed[g].items.len() implies (
    #[trigger] filed[g].items[i]) < bound by {
        if filed.len() == groups.len() {
            if g == slot {
                if i < groups[g].items.len() {
                    assert(groups[g].items[i] < bound);
                }
            } else {
                assert(groups[g].items[i] < bound);
            }
        } else if g < slot {
            assert(groups[g].items[i] < bound);
        } else if g > slot {
            assert(groups[g - 1].items[i] < bound);
        }
    }
}

} // verus!
