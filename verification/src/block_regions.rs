//! Finding the sources of copied blocks: by coordinates with an offset, and
//! through a view that moves a factor from one axis to another.

use crate::block_panels::{Mapping, ViewMapping};
use crate::blocks::{block_of, obtained_all, ExpansionError, ExpansionResult, TileGraphBuilder};
use crate::extents::{
    extents_are, intersect_extents, intersect_extents_with_shared_padding, intersection, min,
    min_u32, padded_intersection,
};
use crate::low::{LowShard, LowShardId, ShardModel, ShardView, ViewModel};
use crate::model::{Model, copy_all, deep, group_deep};
use crate::order::{
    extents_key, groups_insert, key_of_extents, lemma_insert_nonempty, GroupModel, Groups,
};
use crate::tensor::ShardExtent;
use vstd::prelude::*;

verus! {

// ---------------------------------------------------------------- offsets

/// Number of axes that are moved.
pub open spec fn moved_axes(extents: Seq<ShardExtent>, offsets: Seq<u32>) -> int {
    if extents.len() < offsets.len() {
        extents.len() as int
    } else {
        offsets.len() as int
    }
}

/// A range moved by a distance, if it stays representable.
pub open spec fn moved_range(extent: ShardExtent, by: int) -> Option<ShardExtent> {
    if 0 <= extent.start + by <= u32::MAX && 0 <= extent.logical_end + by <= u32::MAX && 0
        <= extent.physical_end + by <= u32::MAX {
        Some(
            ShardExtent {
                axis: extent.axis,
                start: (extent.start + by) as u32,
                logical_end: (extent.logical_end + by) as u32,
                physical_end: (extent.physical_end + by) as u32,
            },
        )
    } else {
        None
    }
}

/// The distance of one axis.
pub open spec fn distance(offset: u32, up: bool) -> int {
    if up {
        offset as int
    } else {
        -(offset as int)
    }
}

/// A rectangle moved into or out of the coordinates of the source.
pub open spec fn moved(extents: Seq<ShardExtent>, offsets: Seq<u32>, up: bool) -> Result<
    Seq<ShardExtent>,
    ExpansionError,
> {
    if forall|i: int|
        0 <= i < moved_axes(extents, offsets) ==> moved_range(
            #[trigger] extents[i],
            distance(offsets[i], up),
        ) is Some {
        Ok(
            Seq::new(
                extents.len(),
                |i: int|
                    if i < offsets.len() {
                        moved_range(extents[i], distance(offsets[i], up))->Some_0
                    } else {
                        extents[i]
                    },
            ),
        )
    } else {
        Err(ExpansionError::IdOverflow)
    }
}

/// Moving a rectangle there and back leaves it where it was.
pub proof fn lemma_moving_back_restores(extents: Seq<ShardExtent>, offsets: Seq<u32>)
    requires
        moved(extents, offsets, true) is Ok,
    ensures
        moved(moved(extents, offsets, true)->Ok_0, offsets, false) == Ok::<
            Seq<ShardExtent>,
            ExpansionError,
        >(extents),
{
    let there = moved(extents, offsets, true)->Ok_0;
    assert forall|i: int| 0 <= i < moved_axes(there, offsets) implies moved_range(
        #[trigger] there[i],
        distance(offsets[i], false),
    ) == Some(extents[i]) by {
        assert(moved_range(extents[i], distance(offsets[i], true)) is Some);
    }
    assert(moved(there, offsets, false)->Ok_0 =~= extents);
}

pub fn move_range(extent: ShardExtent, by: i64) -> (r: Option<ShardExtent>)
    requires
        -0xffff_ffff <= by <= 0xffff_ffff,
    ensures
        r == moved_range(extent, by as int),
{
    let start: i64 = extent.start as i64 + by;
    let logical_end: i64 = extent.logical_end as i64 + by;
    let physical_end: i64 = extent.physical_end as i64 + by;
    if start < 0 || start > 0xffff_ffff || logical_end < 0 || logical_end > 0xffff_ffff
        || physical_end < 0 || physical_end > 0xffff_ffff {
        return None;
    }
    Some(
        ShardExtent {
            axis: extent.axis,
            start: start as u32,
            logical_end: logical_end as u32,
            physical_end: physical_end as u32,
        },
    )
}

/// Moves a rectangle into or out of the coordinates of the source.
pub fn offset_extents(extents: &[ShardExtent], offsets: &[u32], up: bool) -> (r: ExpansionResult<
    Vec<ShardExtent>,
>)
    ensures
        match r {
            Ok(extents_moved) => moved(extents@, offsets@, up) == Ok::<
                Seq<ShardExtent>,
                ExpansionError,
            >(extents_moved@),
            Err(e) => moved(extents@, offsets@, up) == Err::<Seq<ShardExtent>, ExpansionError>(e),
        },
{
    let mut result: Vec<ShardExtent> = Vec::new();
    let mut i: usize = 0;
    while i < extents.len()
        invariant
            i <= extents@.len(),
            result@.len() == i,
            forall|k: int|
                0 <= k < i ==> (#[trigger] result@[k]) == (if k < offsets@.len() {
                    moved_range(extents@[k], distance(offsets@[k], up))->Some_0
                } else {
                    extents@[k]
                }),
            forall|k: int|
                0 <= k < i && k < offsets@.len() ==> moved_range(
                    #[trigger] extents@[k],
                    distance(offsets@[k], up),
                ) is Some,
        decreases extents@.len() - i,
    {
        if i < offsets.len() {
            let by: i64 = if up {
                offsets[i] as i64
            } else {
                -(offsets[i] as i64)
            };
            match move_range(extents[i], by) {
                Some(extent) => {
                    result.push(extent);
                },
                None => {
                    assert(moved_range(extents@[i as int], distance(offsets@[i as int], up))
                        is None);
                    return Err(ExpansionError::IdOverflow);
                },
            }
        } else {
            result.push(extents[i]);
        }
        i += 1;
    }
    assert(result@ =~= moved(extents@, offsets@, up)->Ok_0);
    Ok(result)
}

// ---------------------------------------------------------------- regions

/// The parts of a rectangle that the sources up to `count` hold, with the
/// source of each, filed by rectangle.
pub open spec fn filed_regions(sources: Seq<ViewModel>, target: Seq<ShardExtent>, count: int) -> Seq<
    GroupModel<Mapping>,
>
    decreases count,
{
    if count <= 0 {
        Seq::empty()
    } else {
        let before = filed_regions(sources, target, count - 1);
        let source = sources[count - 1];
        match intersection(source.extents, target) {
            Some(extents) => groups_insert(
                before,
                extents_key(extents),
                (source, ViewModel { extents, ..source }),
            ),
            None => before,
        }
    }
}

/// The first item from `i` on whose source is on the tile.
pub open spec fn first_region_on(
    shards: Seq<ShardModel>,
    items: Seq<Mapping>,
    tile: u16,
    i: int,
) -> Option<Mapping>
    decreases items.len() - i,
{
    if i >= items.len() {
        None
    } else if items[i].0.shard.0 < shards.len() && shards[items[i].0.shard.0 as int].tile == tile {
        Some(items[i])
    } else {
        first_region_on(shards, items, tile, i + 1)
    }
}

/// Of several sources of one rectangle, one on the tile, and else the first.
pub open spec fn chosen_region(shards: Seq<ShardModel>, items: Seq<Mapping>, tile: u16) -> Mapping {
    match first_region_on(shards, items, tile, 0) {
        Some(item) => item,
        None => items[0],
    }
}

/// The different parts of a rectangle that the sources hold, each with the
/// whole of its source, in the order of their rectangles.
pub open spec fn regions(
    shards: Seq<ShardModel>,
    sources: Seq<ViewModel>,
    target: Seq<ShardExtent>,
    tile: u16,
) -> Seq<Mapping> {
    let filed = filed_regions(sources, target, sources.len() as int);
    Seq::new(filed.len(), |i: int| chosen_region(shards, filed[i].items, tile))
}

// ---------------------------------------------------------------- by coordinates

/// `done` followed by the copies into one block from the parts from `i` on.
pub open spec fn offset_parts_from(
    parts: Seq<Mapping>,
    region: Seq<ShardExtent>,
    output: LowShardId,
    offsets: Seq<u32>,
    i: int,
    done: Seq<Mapping>,
) -> Result<Seq<Mapping>, ExpansionError>
    decreases parts.len() - i,
{
    if i >= parts.len() {
        Ok(done)
    } else {
        let source = parts[i].0;
        match padded_intersection(source.extents, region) {
            None => Err(ExpansionError::InvalidOperatorPlan),
            Some(extents) => match moved(extents, offsets, false) {
                Err(e) => Err(e),
                Ok(destination) => offset_parts_from(
                    parts,
                    region,
                    output,
                    offsets,
                    i + 1,
                    done.push(
                        (
                            ViewModel { extents, ..source },
                            ViewModel { shard: output, extents: destination },
                        ),
                    ),
                ),
            },
        }
    }
}

/// `done` followed by the copies into the blocks from `k` on.
pub open spec fn offset_mappings_from(
    shards: Seq<ShardModel>,
    inputs: Seq<ViewModel>,
    outputs: Seq<LowShardId>,
    offsets: Seq<u32>,
    k: int,
    done: Seq<Mapping>,
) -> Result<Seq<Mapping>, ExpansionError>
    decreases outputs.len() - k,
{
    if k >= outputs.len() {
        Ok(done)
    } else {
        match block_of(shards, outputs[k]) {
            Err(e) => Err(e),
            Ok(block) => match moved(block.extents, offsets, true) {
                Err(e) => Err(e),
                Ok(region) => match offset_parts_from(
                    regions(shards, inputs, region, block.tile),
                    region,
                    outputs[k],
                    offsets,
                    0,
                    done,
                ) {
                    Err(e) => Err(e),
                    Ok(next) => offset_mappings_from(
                        shards,
                        inputs,
                        outputs,
                        offsets,
                        k + 1,
                        next,
                    ),
                },
            },
        }
    }
}

/// Copies of a window of a value, by coordinates.
pub open spec fn offset_copy_mappings(
    shards: Seq<ShardModel>,
    inputs: Seq<ViewModel>,
    outputs: Seq<LowShardId>,
    offsets: Seq<u32>,
) -> Result<Seq<Mapping>, ExpansionError> {
    offset_mappings_from(shards, inputs, outputs, offsets, 0, Seq::empty())
}

// ---------------------------------------------------------------- axis factors

/// A view of a tensor that moves a factor between two axes: the split axis is
/// divided into parts that follow each other on the merge axis, or back.
#[derive(Clone, Copy, Debug, PartialEq, Eq, Structural)]
pub struct AxisFactorView {
    pub split_axis: usize,
    pub merge_axis: usize,
    pub parts: u32,
    /// Joins the parts again.
    pub reversed: bool,
}

/// The view names two different axes of a tensor of the given rank.
pub open spec fn fits_rank(view: AxisFactorView, rank: int) -> bool {
    &&& view.split_axis < rank
    &&& view.merge_axis < rank
    &&& view.split_axis != view.merge_axis
    &&& view.parts > 0
}

/// Shape of a viewed tensor.
pub open spec fn factored_shape(view: AxisFactorView, source: Seq<u32>) -> Option<Seq<u32>> {
    let split = view.split_axis as int;
    let merge = view.merge_axis as int;
    if !fits_rank(view, source.len() as int) {
        None
    } else if view.reversed {
        if source[merge] % view.parts != 0 || source[split] * view.parts > u32::MAX {
            None
        } else {
            Some(
                source.update(split, (source[split] * view.parts) as u32).update(
                    merge,
                    source[merge] / view.parts,
                ),
            )
        }
    } else {
        if source[split] % view.parts != 0 || source[merge] * view.parts > u32::MAX {
            None
        } else {
            Some(
                source.update(split, source[split] / view.parts).update(
                    merge,
                    (source[merge] * view.parts) as u32,
                ),
            )
        }
    }
}

/// Elements of one part on the split axis.
pub open spec fn part_width(view: AxisFactorView, source: Seq<u32>, output: Seq<u32>) -> u32 {
    if view.reversed {
        source[view.split_axis as int]
    } else {
        output[view.split_axis as int]
    }
}

/// Where a part starts among all parts of the joined axis.
pub open spec fn part_base(view: AxisFactorView, width: u32, stream: u32, start: u32) -> int {
    if view.reversed {
        (start / width) * width
    } else {
        (stream % view.parts) * width
    }
}

/// Where one stream of a viewed tensor comes from: the position on the merge
/// axis, and the distance on the split axis.
pub open spec fn factor_origin(view: AxisFactorView, width: u32, stream: u32, start: u32) -> (int, int) {
    if view.reversed {
        (stream * view.parts + start / width, -part_base(view, width, stream, start))
    } else {
        ((stream / view.parts) as int, part_base(view, width, stream, start))
    }
}

/// The rectangle of the source behind a rectangle of one stream of the viewed
/// tensor. The rectangle lies inside one part.
pub open spec fn factored_source(
    view: AxisFactorView,
    source: Seq<u32>,
    output: Seq<u32>,
    ranges: Seq<(u32, u32)>,
) -> Option<Seq<ShardExtent>> {
    let split = view.split_axis as int;
    let merge = view.merge_axis as int;
    let width = part_width(view, source, output);
    let (stream, stream_end) = ranges[merge];
    let (start, end) = ranges[split];
    let (row, by) = factor_origin(view, width, stream, start);
    if !fits_rank(view, source.len() as int) || output.len() != source.len() || ranges.len()
        != source.len() || ranges.len() > u16::MAX || width == 0 || stream_end != stream + 1 || end
        < start || start % width + (end - start) > width || row + 1 > u32::MAX || end + by
        > u32::MAX {
        None
    } else {
        Some(
            Seq::new(
                ranges.len(),
                |i: int|
                    if i == merge {
                        flat(i, row, row + 1)
                    } else if i == split {
                        flat(i, start + by, end + by)
                    } else {
                        flat(i, ranges[i].0 as int, ranges[i].1 as int)
                    },
            ),
        )
    }
}

/// A range without padding.
pub open spec fn flat(axis: int, start: int, end: int) -> ShardExtent {
    ShardExtent {
        axis: axis as u16,
        start: start as u32,
        logical_end: end as u32,
        physical_end: end as u32,
    }
}

/// Following one element into the parts and back leads to where it started.
pub proof fn lemma_factor_views_invert(parts: u32, width: u32, row: u32, column: u32)
    requires
        parts > 0,
        width > 0,
        column < parts * width,
        row * parts + column / width <= u32::MAX,
    ensures
        ({
            let forward = AxisFactorView { split_axis: 0, merge_axis: 1, parts, reversed: false };
            let back = AxisFactorView { split_axis: 0, merge_axis: 1, parts, reversed: true };
            let stream = factor_origin(back, width, row, column).0;
            let inner = column + factor_origin(back, width, row, column).1;
            &&& 0 <= inner < width
            &&& stream == row * parts + column / width
            &&& factor_origin(forward, width, stream as u32, inner as u32).0 == row
            &&& inner + factor_origin(forward, width, stream as u32, inner as u32).1 == column
        }),
{
    let part = (column / width) as int;
    let stream = row * parts + part;
    assert(0 <= part < parts) by (nonlinear_arith)
        requires
            part == (column / width) as int,
            column < parts * width,
            width > 0,
    ;
    vstd::arithmetic::div_mod::lemma_fundamental_div_mod(column as int, width as int);
    vstd::arithmetic::div_mod::lemma_fundamental_div_mod_converse(
        stream,
        parts as int,
        row as int,
        part,
    );
    assert(stream as u32 == stream);
    assert(width * part == part * width) by (nonlinear_arith);
}

// ---------------------------------------------------------------- through a view

/// One stream of a viewed block, or one part of it.
#[derive(Clone, Copy, Debug)]
pub struct Slice {
    pub output: LowShardId,
    pub view: AxisFactorView,
    /// The stream as a range of the merge axis.
    pub stream: ShardExtent,
    /// Where the part starts on the split axis, among all parts.
    pub base: u32,
    /// Elements of one part.
    pub width: u32,
    /// Padding of the block on the split axis.
    pub padding: u32,
}

/// Distance from the source to the block on the split axis.
pub open spec fn distance_to_block(slice: Slice) -> int {
    distance(slice.base, slice.view.reversed)
}

/// Padding after the last useful element.
pub open spec fn tail_after(extent: ShardExtent, end: u32) -> u32 {
    if extent.physical_end > end {
        (extent.physical_end - end) as u32
    } else {
        0
    }
}

/// The source holds exactly one part, and the copy takes all of it.
pub open spec fn is_complete_part(slice: Slice, held: ShardExtent, part: ShardExtent) -> bool {
    &&& !slice.view.reversed
    &&& part.start == slice.base
    &&& part.logical_end == slice.base + slice.width
    &&& held.start == slice.base
    &&& held.logical_end == slice.base + slice.width
}

/// Padding that a copy of one part takes along.
pub open spec fn part_padding(slice: Slice, held: ShardExtent, part: ShardExtent) -> u32 {
    if is_complete_part(slice, held, part) {
        min(tail_after(held, part.logical_end), slice.padding)
    } else {
        0
    }
}

/// A range with more padding.
pub open spec fn padded_by(extent: ShardExtent, padding: u32) -> ShardExtent {
    ShardExtent { physical_end: (extent.physical_end + padding) as u32, ..extent }
}

/// The copy of one part of one stream.
pub open spec fn slice_mapping(slice: Slice, offsets: Seq<u32>, part: Mapping) -> Result<
    Mapping,
    ExpansionError,
> {
    let split = slice.view.split_axis as int;
    let merge = slice.view.merge_axis as int;
    let from = part.1.extents;
    if !fits_rank(slice.view, from.len() as int) || part.0.extents.len() != from.len() {
        Err(ExpansionError::InvalidOperatorPlan)
    } else {
        let padding = part_padding(slice, part.0.extents[split], from[split]);
        match moved_range(from[split], distance_to_block(slice)) {
            None => Err(ExpansionError::InvalidOperatorPlan),
            Some(to) => if from[split].physical_end + padding > u32::MAX || to.physical_end
                + padding > u32::MAX {
                Err(ExpansionError::InvalidOperatorPlan)
            } else {
                match moved(
                    from.update(merge, slice.stream).update(split, padded_by(to, padding)),
                    offsets,
                    false,
                ) {
                    Err(e) => Err(e),
                    Ok(destination) => Ok(
                        (
                            ViewModel {
                                extents: from.update(split, padded_by(from[split], padding)),
                                ..part.1
                            },
                            ViewModel { shard: slice.output, extents: destination },
                        ),
                    ),
                }
            },
        }
    }
}

/// `done` followed by the copies of the parts from `i` on.
pub open spec fn slice_mappings_from(
    slice: Slice,
    offsets: Seq<u32>,
    parts: Seq<Mapping>,
    i: int,
    done: Seq<Mapping>,
) -> Result<Seq<Mapping>, ExpansionError>
    decreases parts.len() - i,
{
    if i >= parts.len() {
        Ok(done)
    } else {
        match slice_mapping(slice, offsets, parts[i]) {
            Err(e) => Err(e),
            Ok(mapping) => slice_mappings_from(slice, offsets, parts, i + 1, done.push(mapping)),
        }
    }
}

/// What all copies into one block have in common.
#[verifier::reject_recursive_types(T)]
pub struct Window<T> {
    pub output: LowShardId,
    pub tile: u16,
    pub extents: T,
}

/// The ranges of a rectangle, with one stream and one range of the split axis.
pub open spec fn slice_ranges(
    view: AxisFactorView,
    extents: Seq<ShardExtent>,
    stream: u32,
    start: u32,
    end: u32,
) -> Seq<(u32, u32)> {
    Seq::new(
        extents.len(),
        |i: int|
            if i == view.merge_axis {
                (stream, (stream + 1) as u32)
            } else if i == view.split_axis {
                (start, end)
            } else {
                (extents[i].start, extents[i].logical_end)
            },
    )
}

/// The end of the part that holds `start`, or of the range if that comes first.
pub open spec fn part_end(view: AxisFactorView, width: u32, start: u32, end: u32) -> u32 {
    if view.reversed && (start / width) * width + width < end {
        ((start / width) * width + width) as u32
    } else {
        end
    }
}

/// Copies of the parts of one stream from `start` on.
pub open spec fn stream_mappings_from(
    shards: Seq<ShardModel>,
    sources: Seq<ViewModel>,
    source_shape: Seq<u32>,
    output_shape: Seq<u32>,
    view: AxisFactorView,
    offsets: Seq<u32>,
    window: Window<Seq<ShardExtent>>,
    stream: u32,
    start: u32,
    done: Seq<Mapping>,
) -> Result<Seq<Mapping>, ExpansionError>
    decreases window.extents[view.split_axis as int].logical_end - start,
{
    let limit = window.extents[view.split_axis as int].logical_end;
    let width = part_width(view, source_shape, output_shape);
    let end = part_end(view, width, start, limit);
    if start >= limit {
        Ok(done)
    } else if width == 0 || end <= start {
        Err(ExpansionError::InvalidOperatorPlan)
    } else {
        match factored_source(
            view,
            source_shape,
            output_shape,
            slice_ranges(view, window.extents, stream, start, end),
        ) {
            None => Err(ExpansionError::InvalidOperatorPlan),
            Some(target) => match slice_mappings_from(
                slice_of(view, window, width, stream, start),
                offsets,
                regions(shards, sources, target, window.tile),
                0,
                done,
            ) {
                Err(e) => Err(e),
                Ok(next) => stream_mappings_from(
                    shards,
                    sources,
                    source_shape,
                    output_shape,
                    view,
                    offsets,
                    window,
                    stream,
                    end,
                    next,
                ),
            },
        }
    }
}

/// One stream of a block, from `start` on.
pub open spec fn slice_of(
    view: AxisFactorView,
    window: Window<Seq<ShardExtent>>,
    width: u32,
    stream: u32,
    start: u32,
) -> Slice {
    let merge = window.extents[view.merge_axis as int];
    let split = window.extents[view.split_axis as int];
    Slice {
        output: window.output,
        view,
        stream: ShardExtent {
            axis: merge.axis,
            start: stream,
            logical_end: (stream + 1) as u32,
            physical_end: (stream + 1) as u32,
        },
        base: part_base(view, width, stream, start) as u32,
        width,
        padding: tail_after(split, split.logical_end),
    }
}

/// `done` followed by the copies of the streams from `stream` on.
pub open spec fn streams_from(
    shards: Seq<ShardModel>,
    sources: Seq<ViewModel>,
    source_shape: Seq<u32>,
    output_shape: Seq<u32>,
    view: AxisFactorView,
    offsets: Seq<u32>,
    window: Window<Seq<ShardExtent>>,
    stream: int,
    done: Seq<Mapping>,
) -> Result<Seq<Mapping>, ExpansionError>
    decreases window.extents[view.merge_axis as int].logical_end - stream,
{
    if stream >= window.extents[view.merge_axis as int].logical_end {
        Ok(done)
    } else {
        match stream_mappings_from(
            shards,
            sources,
            source_shape,
            output_shape,
            view,
            offsets,
            window,
            stream as u32,
            window.extents[view.split_axis as int].start,
            done,
        ) {
            Err(e) => Err(e),
            Ok(next) => streams_from(
                shards,
                sources,
                source_shape,
                output_shape,
                view,
                offsets,
                window,
                stream + 1,
                next,
            ),
        }
    }
}

/// A rectangle without what lies outside a tensor of the given shape.
pub open spec fn clipped(extents: Seq<ShardExtent>, shape: Seq<u32>) -> Seq<ShardExtent> {
    Seq::new(
        extents.len(),
        |i: int|
            if i < shape.len() {
                ShardExtent { logical_end: min(extents[i].logical_end, shape[i]), ..extents[i] }
            } else {
                extents[i]
            },
    )
}

/// Some axis has no useful element.
pub open spec fn has_empty_axis(extents: Seq<ShardExtent>) -> bool {
    exists|i: int| 0 <= i < extents.len() && (#[trigger] extents[i]).start >= extents[i].logical_end
}

/// `done` followed by the copies into the blocks from `k` on.
pub open spec fn window_mappings_from(
    shards: Seq<ShardModel>,
    sources: Seq<ViewModel>,
    source_shape: Seq<u32>,
    outputs: Seq<LowShardId>,
    view: AxisFactorView,
    offsets: Seq<u32>,
    k: int,
    done: Seq<Mapping>,
) -> Result<Seq<Mapping>, ExpansionError>
    decreases outputs.len() - k,
{
    if k >= outputs.len() {
        Ok(done)
    } else {
        match block_of(shards, outputs[k]) {
            Err(e) => Err(e),
            Ok(block) => match moved(block.extents, offsets, true) {
                Err(e) => Err(e),
                Ok(extents) => match factored_shape(view, source_shape) {
                    None => Err(ExpansionError::InvalidOperatorPlan),
                    Some(shape) => if extents.len() != shape.len() {
                        Err(ExpansionError::InvalidOperatorPlan)
                    } else if has_empty_axis(clipped(extents, shape)) {
                        window_mappings_from(
                            shards,
                            sources,
                            source_shape,
                            outputs,
                            view,
                            offsets,
                            k + 1,
                            done,
                        )
                    } else {
                        match streams_from(
                            shards,
                            sources,
                            source_shape,
                            shape,
                            view,
                            offsets,
                            Window {
                                output: outputs[k],
                                tile: block.tile,
                                extents: clipped(extents, shape),
                            },
                            clipped(extents, shape)[view.merge_axis as int].start as int,
                            done,
                        ) {
                            Err(e) => Err(e),
                            Ok(next) => window_mappings_from(
                                shards,
                                sources,
                                source_shape,
                                outputs,
                                view,
                                offsets,
                                k + 1,
                                next,
                            ),
                        }
                    },
                },
            },
        }
    }
}

/// Copies of a window of a viewed value. The parts of the view are followed
/// stream by stream.
pub open spec fn window_view_mappings(
    shards: Seq<ShardModel>,
    sources: Seq<ViewModel>,
    source_shape: Seq<u32>,
    outputs: Seq<LowShardId>,
    view: AxisFactorView,
    offsets: Seq<u32>,
) -> Result<Seq<Mapping>, ExpansionError> {
    window_mappings_from(shards, sources, source_shape, outputs, view, offsets, 0, Seq::empty())
}

// ---------------------------------------------------------------- carrying out

impl AxisFactorView {
    /// Shape of the viewed tensor.
    pub fn output_shape(&self, source: &[u32]) -> (r: Option<Vec<u32>>)
        ensures
            match r {
                Some(shape) => factored_shape(*self, source@) == Some(shape@),
                None => factored_shape(*self, source@) is None,
            },
    {
        if self.split_axis >= source.len() || self.merge_axis >= source.len() || self.split_axis
            == self.merge_axis || self.parts == 0 {
            return None;
        }
        let (grown, divided) = if self.reversed {
            (self.split_axis, self.merge_axis)
        } else {
            (self.merge_axis, self.split_axis)
        };
        if source[divided] % self.parts != 0 {
            return None;
        }
        let product: u32 = match source[grown].checked_mul(self.parts) {
            Some(product) => product,
            None => {
                return None;
            },
        };
        let mut shape = copy_all(source);
        shape.set(grown, product);
        shape.set(divided, source[divided] / self.parts);
        assert(shape@ =~= factored_shape(*self, source@)->Some_0);
        Some(shape)
    }
}

/// Where a part starts, and the position of its stream in the source.
fn origin_of(view: AxisFactorView, width: u32, stream: u32, start: u32) -> (r: (u64, u64))
    requires
        view.parts > 0,
        width > 0,
        stream < 0xffff_ffff,
    ensures
        r.0 == factor_origin(view, width, stream, start).0,
        r.1 == part_base(view, width, stream, start),
        view.reversed ==> r.1 <= start,
{
    if view.reversed {
        let part: u32 = start / width;
        assert(0 <= part * width <= start) by (nonlinear_arith)
            requires
                part == start / width,
                width > 0,
        ;
        assert(0 <= stream * view.parts <= 0xffff_fffe * 0xffff_ffff) by (nonlinear_arith)
            requires
                stream <= 0xffff_fffe,
                view.parts <= 0xffff_ffff,
        ;
        (stream as u64 * view.parts as u64 + part as u64, (part * width) as u64)
    } else {
        let head: u32 = stream % view.parts;
        assert(0 <= head * width <= 0xffff_fffe * 0xffff_ffff) by (nonlinear_arith)
            requires
                head <= 0xffff_fffe,
                width <= 0xffff_ffff,
        ;
        ((stream / view.parts) as u64, head as u64 * width as u64)
    }
}

fn flat_extent(axis: usize, start: u32, end: u32) -> (r: ShardExtent)
    requires
        axis <= u16::MAX,
    ensures
        r == flat(axis as int, start as int, end as int),
{
    ShardExtent { axis: axis as u16, start, logical_end: end, physical_end: end }
}

/// The rectangle of the source behind a part of one stream.
pub fn view_source_extents(
    view: AxisFactorView,
    source: &[u32],
    output: &[u32],
    ranges: &[(u32, u32)],
) -> (r: Option<Vec<ShardExtent>>)
    ensures
        extents_are(r, factored_source(view, source@, output@, ranges@)),
{
    if view.split_axis >= source.len() || view.merge_axis >= source.len() || view.split_axis
        == view.merge_axis || view.parts == 0 || output.len() != source.len() || ranges.len()
        != source.len() || ranges.len() > 0xffff {
        return None;
    }
    let width: u32 = if view.reversed {
        source[view.split_axis]
    } else {
        output[view.split_axis]
    };
    let (stream, stream_end) = ranges[view.merge_axis];
    let (start, end) = ranges[view.split_axis];
    if width == 0 || stream == 0xffff_ffff || stream_end != stream + 1 || end < start {
        return None;
    }
    let (row, base) = origin_of(view, width, stream, start);
    if (start % width) as u64 + (end - start) as u64 > width as u64 || row >= 0xffff_ffff {
        return None;
    }
    if !view.reversed && base > (0xffff_ffff - end) as u64 {
        return None;
    }
    let (from, to): (u32, u32) = if view.reversed {
        (start - base as u32, end - base as u32)
    } else {
        (start + base as u32, end + base as u32)
    };
    let mut extents: Vec<ShardExtent> = Vec::new();
    let mut i: usize = 0;
    while i < ranges.len()
        invariant
            i <= ranges@.len(),
            extents@.len() == i,
            factored_source(view, source@, output@, ranges@) is Some,
            forall|k: int|
                0 <= k < i ==> (#[trigger] extents@[k]) == factored_source(
                    view,
                    source@,
                    output@,
                    ranges@,
                )->Some_0[k],
        decreases ranges@.len() - i,
    {
        if i == view.merge_axis {
            extents.push(flat_extent(i, row as u32, row as u32 + 1));
        } else if i == view.split_axis {
            extents.push(flat_extent(i, from, to));
        } else {
            extents.push(flat_extent(i, ranges[i].0, ranges[i].1));
        }
        i += 1;
    }
    assert(extents@ =~= factored_source(view, source@, output@, ranges@)->Some_0);
    Some(extents)
}

fn tail_of(extent: ShardExtent, end: u32) -> (r: u32)
    ensures
        r == tail_after(extent, end),
{
    if extent.physical_end > end {
        extent.physical_end - end
    } else {
        0
    }
}

/// The copy of one part of one stream.
fn map_slice(slice: Slice, offsets: &[u32], part: &ViewMapping) -> (r: ExpansionResult<ViewMapping>)
    ensures
        crate::blocks::obtained(r, slice_mapping(slice, offsets@, part@)),
{
    let view = slice.view;
    let from = &part.1.extents;
    if view.split_axis >= from.len() || view.merge_axis >= from.len() || view.split_axis
        == view.merge_axis || view.parts == 0 || part.0.extents.len() != from.len() {
        return Err(ExpansionError::InvalidOperatorPlan);
    }
    let held: ShardExtent = part.0.extents[view.split_axis];
    let range: ShardExtent = from[view.split_axis];
    let part_end: u64 = slice.base as u64 + slice.width as u64;
    let padding: u32 = if !view.reversed && range.start == slice.base && range.logical_end as u64
        == part_end && held.start == slice.base && held.logical_end as u64 == part_end {
        min_u32(tail_of(held, range.logical_end), slice.padding)
    } else {
        0
    };
    let by: i64 = if view.reversed {
        slice.base as i64
    } else {
        -(slice.base as i64)
    };
    let to: ShardExtent = match move_range(range, by) {
        Some(to) => to,
        None => {
            return Err(ExpansionError::InvalidOperatorPlan);
        },
    };
    if range.physical_end > 0xffff_ffff - padding || to.physical_end > 0xffff_ffff - padding {
        return Err(ExpansionError::InvalidOperatorPlan);
    }
    let mut destination = copy_all(from.as_slice());
    destination.set(view.merge_axis, slice.stream);
    destination.set(
        view.split_axis,
        ShardExtent {
            axis: to.axis,
            start: to.start,
            logical_end: to.logical_end,
            physical_end: to.physical_end + padding,
        },
    );
    let destination = offset_extents(destination.as_slice(), offsets, false)?;
    let mut extents = copy_all(from.as_slice());
    extents.set(
        view.split_axis,
        ShardExtent {
            axis: range.axis,
            start: range.start,
            logical_end: range.logical_end,
            physical_end: range.physical_end + padding,
        },
    );
    Ok(
        (
            ShardView { shard: part.1.shard, extents },
            ShardView { shard: slice.output, extents: destination },
        ),
    )
}

/// Finds the different parts of a rectangle that the sources hold.
pub fn find_regions(shards: &Vec<LowShard>, sources: &Vec<ShardView>, target: &[ShardExtent], tile: u16) -> (r: Vec<
    ViewMapping,
>)
    ensures
        deep(r@) == regions(deep(shards@), deep(sources@), target@, tile),
{
    broadcast use group_deep;

    let ghost views = deep(sources@);
    let mut filed: Groups<ViewMapping> = Groups::new();
    let mut i: usize = 0;
    while i < sources.len()
        invariant
            i <= sources@.len(),
            filed@ == filed_regions(views, target@, i as int),
            forall|g: int| 0 <= g < filed@.len() ==> (#[trigger] filed@[g]).items.len() > 0,
        decreases sources@.len() - i,
    {
        assert(views[i as int] == sources@[i as int]@);
        match intersect_extents(sources[i].extents.as_slice(), target) {
            Some(extents) => {
                let key = key_of_extents(extents.as_slice());
                let part = (
                    sources[i].duplicate(),
                    ShardView { shard: sources[i].shard, extents },
                );
                proof {
                    lemma_insert_nonempty(filed@, key@, part@);
                }
                filed.insert(key, part);
            },
            None => {},
        }
        i += 1;
    }
    let ghost model = filed@;
    let mut found: Vec<ViewMapping> = Vec::new();
    let mut g: usize = 0;
    while g < filed.entries.len()
        invariant
            g <= filed.entries@.len(),
            filed@ == model,
            found@.len() == g,
            forall|k: int|
                0 <= k < g ==> (#[trigger] found@[k])@ == chosen_region(
                    deep(shards@),
                    model[k].items,
                    tile,
                ),
        decreases filed.entries@.len() - g,
    {
        let items = &filed.entries[g].items;
        assert(model[g as int] == filed.entries@[g as int]@);
        assert(model[g as int].items.len() > 0);
        let at = choose_region(shards, items, tile);
        found.push(
            (items[at].0.duplicate(), items[at].1.duplicate()),
        );
        g += 1;
    }
    assert(deep(found@) =~= regions(deep(shards@), views, target@, tile));
    found
}

fn choose_region(shards: &Vec<LowShard>, items: &Vec<ViewMapping>, tile: u16) -> (r: usize)
    requires
        items@.len() > 0,
    ensures
        r < items@.len(),
        deep(items@)[r as int] == chosen_region(deep(shards@), deep(items@), tile),
{
    broadcast use group_deep;

    let ghost model = deep(items@);
    let mut j: usize = 0;
    while j < items.len()
        invariant
            j <= items@.len(),
            first_region_on(deep(shards@), model, tile, 0) == first_region_on(
                deep(shards@),
                model,
                tile,
                j as int,
            ),
        decreases items@.len() - j,
    {
        assert(model[j as int] == items@[j as int]@);
        let shard: usize = items[j].0.shard.0 as usize;
        if shard < shards.len() && shards[shard].tile == tile {
            return j;
        }
        j += 1;
    }
    0
}

/// Copies of a window of a value, by coordinates.
pub fn map_offset_copies(
    shards: &Vec<LowShard>,
    inputs: &Vec<ShardView>,
    outputs: &Vec<LowShardId>,
    offsets: &[u32],
) -> (r: ExpansionResult<Vec<ViewMapping>>)
    ensures
        obtained_all(
            r,
            offset_copy_mappings(deep(shards@), deep(inputs@), outputs@, offsets@),
        ),
{
    broadcast use group_deep;

    let mut mappings: Vec<ViewMapping> = Vec::new();
    assert(deep(mappings@) =~= Seq::<Mapping>::empty());
    let mut k: usize = 0;
    while k < outputs.len()
        invariant
            k <= outputs@.len(),
            offset_copy_mappings(deep(shards@), deep(inputs@), outputs@, offsets@)
                == offset_mappings_from(
                deep(shards@),
                deep(inputs@),
                outputs@,
                offsets@,
                k as int,
                deep(mappings@),
            ),
        decreases outputs@.len() - k,
    {
        let block = find_block(shards, outputs[k])?;
        let region = offset_extents(block.extents.as_slice(), offsets, true)?;
        let parts = find_regions(shards, inputs, region.as_slice(), block.tile);
        let ghost model = deep(parts@);
        let ghost before = deep(mappings@);
        let mut i: usize = 0;
        while i < parts.len()
            invariant
                i <= parts@.len(),
                offset_parts_from(model, region@, outputs@[k as int], offsets@, 0, before)
                    == offset_parts_from(
                    model,
                    region@,
                    outputs@[k as int],
                    offsets@,
                    i as int,
                    deep(mappings@),
                ),
            decreases parts@.len() - i,
        {
            assert(model[i as int] == parts@[i as int]@);
            let source = &parts[i].0;
            match intersect_extents_with_shared_padding(
                source.extents.as_slice(),
                region.as_slice(),
            ) {
                Some(extents) => {
                    let destination = offset_extents(extents.as_slice(), offsets, false)?;
                    let mapping = (
                        ShardView { shard: source.shard, extents },
                        ShardView { shard: outputs[k], extents: destination },
                    );
                    mappings.push(mapping);
                },
                None => {
                    return Err(ExpansionError::InvalidOperatorPlan);
                },
            }
            i += 1;
        }
        k += 1;
    }
    Ok(mappings)
}

/// Copies of the parts of one stream.
fn map_stream(
    shards: &Vec<LowShard>,
    sources: &Vec<ShardView>,
    source_shape: &[u32],
    output_shape: &[u32],
    view: AxisFactorView,
    offsets: &[u32],
    window: &Window<Vec<ShardExtent>>,
    stream: u32,
    mappings: &mut Vec<ViewMapping>,
) -> (r: ExpansionResult<()>)
    requires
        fits_rank(view, source_shape@.len() as int),
        output_shape@.len() == source_shape@.len(),
        window.extents@.len() == source_shape@.len(),
        stream < window.extents@[view.merge_axis as int].logical_end,
    ensures
        mapped(
            r,
            deep(final(mappings)@),
            stream_mappings_from(
                deep(shards@),
                deep(sources@),
                source_shape@,
                output_shape@,
                view,
                offsets@,
                window@,
                stream,
                window.extents@[view.split_axis as int].start,
                deep(old(mappings)@),
            ),
        ),
{
    broadcast use group_deep;

    let ghost before = deep(mappings@);
    let limit: u32 = window.extents[view.split_axis].logical_end;
    let width: u32 = if view.reversed {
        source_shape[view.split_axis]
    } else {
        output_shape[view.split_axis]
    };
    let first: u32 = window.extents[view.split_axis].start;
    let mut start: u32 = first;
    while start < limit
        invariant
            stream_mappings_from(
                deep(shards@),
                deep(sources@),
                source_shape@,
                output_shape@,
                view,
                offsets@,
                window@,
                stream,
                first,
                before,
            ) == stream_mappings_from(
                deep(shards@),
                deep(sources@),
                source_shape@,
                output_shape@,
                view,
                offsets@,
                window@,
                stream,
                start,
                deep(mappings@),
            ),
        decreases limit - start,
    {
        if width == 0 {
            return Err(ExpansionError::InvalidOperatorPlan);
        }
        let (_, base) = origin_of(view, width, stream, start);
        let end: u32 = if view.reversed && base + (width as u64) < limit as u64 {
            base as u32 + width
        } else {
            limit
        };
        if end <= start {
            return Err(ExpansionError::InvalidOperatorPlan);
        }
        let mut ranges: Vec<(u32, u32)> = Vec::new();
        let mut i: usize = 0;
        while i < window.extents.len()
            invariant
                i <= window.extents@.len(),
                ranges@.len() == i,
                forall|k: int|
                    0 <= k < i ==> (#[trigger] ranges@[k]) == slice_ranges(
                        view,
                        window.extents@,
                        stream,
                        start,
                        end,
                    )[k],
            decreases window.extents@.len() - i,
        {
            if i == view.merge_axis {
                ranges.push((stream, stream + 1));
            } else if i == view.split_axis {
                ranges.push((start, end));
            } else {
                ranges.push((window.extents[i].start, window.extents[i].logical_end));
            }
            i += 1;
        }
        assert(ranges@ =~= slice_ranges(view, window.extents@, stream, start, end));
        let target = match view_source_extents(
            view,
            source_shape,
            output_shape,
            ranges.as_slice(),
        ) {
            Some(target) => target,
            None => {
                return Err(ExpansionError::InvalidOperatorPlan);
            },
        };
        let merge: ShardExtent = window.extents[view.merge_axis];
        let split: ShardExtent = window.extents[view.split_axis];
        assert(base <= 0xffff_ffff);
        let slice = Slice {
            output: window.output,
            view,
            stream: ShardExtent {
                axis: merge.axis,
                start: stream,
                logical_end: stream + 1,
                physical_end: stream + 1,
            },
            base: base as u32,
            width,
            padding: tail_of(split, split.logical_end),
        };
        assert(slice == slice_of(view, window@, width, stream, start));
        let parts = find_regions(shards, sources, target.as_slice(), window.tile);
        map_parts(slice, offsets, &parts, mappings)?;
        start = end;
    }
    Ok(())
}

fn map_parts(
    slice: Slice,
    offsets: &[u32],
    parts: &Vec<ViewMapping>,
    mappings: &mut Vec<ViewMapping>,
) -> (r: ExpansionResult<()>)
    ensures
        mapped(
            r,
            deep(final(mappings)@),
            slice_mappings_from(slice, offsets@, deep(parts@), 0, deep(old(mappings)@)),
        ),
{
    broadcast use group_deep;

    let ghost model = deep(parts@);
    let ghost before = deep(mappings@);
    let mut i: usize = 0;
    while i < parts.len()
        invariant
            i <= parts@.len(),
            slice_mappings_from(slice, offsets@, model, 0, before) == slice_mappings_from(
                slice,
                offsets@,
                model,
                i as int,
                deep(mappings@),
            ),
        decreases parts@.len() - i,
    {
        assert(model[i as int] == parts@[i as int]@);
        let mapping = map_slice(slice, offsets, &parts[i])?;
        mappings.push(mapping);
        i += 1;
    }
    Ok(())
}

/// Copies of all streams of one block.
fn map_streams(
    shards: &Vec<LowShard>,
    sources: &Vec<ShardView>,
    source_shape: &[u32],
    output_shape: &[u32],
    view: AxisFactorView,
    offsets: &[u32],
    window: &Window<Vec<ShardExtent>>,
    mappings: &mut Vec<ViewMapping>,
) -> (r: ExpansionResult<()>)
    requires
        fits_rank(view, source_shape@.len() as int),
        output_shape@.len() == source_shape@.len(),
        window.extents@.len() == source_shape@.len(),
    ensures
        mapped(
            r,
            deep(final(mappings)@),
            streams_from(
                deep(shards@),
                deep(sources@),
                source_shape@,
                output_shape@,
                view,
                offsets@,
                window@,
                window.extents@[view.merge_axis as int].start as int,
                deep(old(mappings)@),
            ),
        ),
{
    broadcast use group_deep;

    let ghost before = deep(mappings@);
    let first: u32 = window.extents[view.merge_axis].start;
    let mut stream: u32 = first;
    while stream < window.extents[view.merge_axis].logical_end
        invariant
            streams_from(
                deep(shards@),
                deep(sources@),
                source_shape@,
                output_shape@,
                view,
                offsets@,
                window@,
                first as int,
                before,
            ) == streams_from(
                deep(shards@),
                deep(sources@),
                source_shape@,
                output_shape@,
                view,
                offsets@,
                window@,
                stream as int,
                deep(mappings@),
            ),
        decreases window.extents@[view.merge_axis as int].logical_end - stream,
    {
        map_stream(
            shards,
            sources,
            source_shape,
            output_shape,
            view,
            offsets,
            window,
            stream,
            mappings,
        )?;
        stream += 1;
    }
    Ok(())
}

/// Copies of a window of a viewed value.
pub fn map_window_views(
    shards: &Vec<LowShard>,
    sources: &Vec<ShardView>,
    source_shape: &[u32],
    outputs: &Vec<LowShardId>,
    view: AxisFactorView,
    offsets: &[u32],
) -> (r: ExpansionResult<Vec<ViewMapping>>)
    ensures
        obtained_all(
            r,
            window_view_mappings(
                deep(shards@),
                deep(sources@),
                source_shape@,
                outputs@,
                view,
                offsets@,
            ),
        ),
{
    broadcast use group_deep;

    let mut mappings: Vec<ViewMapping> = Vec::new();
    assert(deep(mappings@) =~= Seq::<Mapping>::empty());
    let mut k: usize = 0;
    while k < outputs.len()
        invariant
            k <= outputs@.len(),
            window_view_mappings(
                deep(shards@),
                deep(sources@),
                source_shape@,
                outputs@,
                view,
                offsets@,
            ) == window_mappings_from(
                deep(shards@),
                deep(sources@),
                source_shape@,
                outputs@,
                view,
                offsets@,
                k as int,
                deep(mappings@),
            ),
        decreases outputs@.len() - k,
    {
        let block = find_block(shards, outputs[k])?;
        let extents = offset_extents(block.extents.as_slice(), offsets, true)?;
        let shape = match view.output_shape(source_shape) {
            Some(shape) => shape,
            None => {
                return Err(ExpansionError::InvalidOperatorPlan);
            },
        };
        if extents.len() != shape.len() {
            return Err(ExpansionError::InvalidOperatorPlan);
        }
        let extents = clip(&extents, &shape);
        if !is_empty_somewhere(&extents) {
            let window = Window { output: outputs[k], tile: block.tile, extents };
            map_streams(
                shards,
                sources,
                source_shape,
                shape.as_slice(),
                view,
                offsets,
                &window,
                &mut mappings,
            )?;
        }
        k += 1;
    }
    Ok(mappings)
}

/// The block with the given id.
pub fn find_block(shards: &Vec<LowShard>, id: LowShardId) -> (r: ExpansionResult<&LowShard>)
    ensures
        match r {
            Ok(block) => block_of(deep(shards@), id) == Ok::<ShardModel, ExpansionError>(block@),
            Err(e) => block_of(deep(shards@), id) == Err::<ShardModel, ExpansionError>(e),
        },
{
    broadcast use group_deep;

    if (id.0 as usize) < shards.len() {
        Ok(&shards[id.0 as usize])
    } else {
        Err(ExpansionError::InvalidOperatorPlan)
    }
}

impl TileGraphBuilder {
    /// Copies of a window of a value, by coordinates.
    pub fn offset_copy_mappings(
        &self,
        inputs: &Vec<ShardView>,
        outputs: &Vec<LowShardId>,
        offsets: &[u32],
    ) -> (r: ExpansionResult<Vec<ViewMapping>>)
        ensures
            obtained_all(
                r,
                offset_copy_mappings(self@.shards, deep(inputs@), outputs@, offsets@),
            ),
    {
        map_offset_copies(&self.shards, inputs, outputs, offsets)
    }

    /// Copies of a window of a viewed value.
    pub fn window_view_mappings(
        &self,
        sources: &Vec<ShardView>,
        source_shape: &[u32],
        outputs: &Vec<LowShardId>,
        view: AxisFactorView,
        offsets: &[u32],
    ) -> (r: ExpansionResult<Vec<ViewMapping>>)
        ensures
            obtained_all(
                r,
                window_view_mappings(
                    self@.shards,
                    deep(sources@),
                    source_shape@,
                    outputs@,
                    view,
                    offsets@,
                ),
            ),
    {
        map_window_views(&self.shards, sources, source_shape, outputs, view, offsets)
    }
}

/// `r` is what was asked of the copies, or the error.
pub open spec fn mapped(
    r: ExpansionResult<()>,
    after: Seq<Mapping>,
    expected: Result<Seq<Mapping>, ExpansionError>,
) -> bool {
    match r {
        Ok(_) => expected == Ok::<Seq<Mapping>, ExpansionError>(after),
        Err(e) => expected == Err::<Seq<Mapping>, ExpansionError>(e),
    }
}

impl View for Window<Vec<ShardExtent>> {
    type V = Window<Seq<ShardExtent>>;

    open spec fn view(&self) -> Window<Seq<ShardExtent>> {
        Window { output: self.output, tile: self.tile, extents: self.extents@ }
    }
}

fn clip(extents: &Vec<ShardExtent>, shape: &Vec<u32>) -> (r: Vec<ShardExtent>)
    ensures
        r@ == clipped(extents@, shape@),
{
    let mut result: Vec<ShardExtent> = Vec::new();
    let mut i: usize = 0;
    while i < extents.len()
        invariant
            i <= extents@.len(),
            result@.len() == i,
            forall|k: int| 0 <= k < i ==> (#[trigger] result@[k]) == clipped(extents@, shape@)[k],
        decreases extents@.len() - i,
    {
        let extent: ShardExtent = extents[i];
        if i < shape.len() {
            result.push(
                ShardExtent {
                    axis: extent.axis,
                    start: extent.start,
                    logical_end: min_u32(extent.logical_end, shape[i]),
                    physical_end: extent.physical_end,
                },
            );
        } else {
            result.push(extent);
        }
        i += 1;
    }
    assert(result@ =~= clipped(extents@, shape@));
    result
}

fn is_empty_somewhere(extents: &Vec<ShardExtent>) -> (r: bool)
    ensures
        r == has_empty_axis(extents@),
{
    let mut i: usize = 0;
    while i < extents.len()
        invariant
            i <= extents@.len(),
            forall|k: int|
                0 <= k < i ==> (#[trigger] extents@[k]).start < extents@[k].logical_end,
        decreases extents@.len() - i,
    {
        if extents[i].start >= extents[i].logical_end {
            assert(extents@[i as int].start >= extents@[i as int].logical_end);
            return true;
        }
        i += 1;
    }
    false
}

} // verus!
