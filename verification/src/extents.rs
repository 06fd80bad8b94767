//! Rectangles of tensor elements: intersection, and division at the panel
//! boundaries of their allocations.

use crate::low::{LowLoweringError, LowLoweringResult, LowShard, ShardModel, ShardView, ViewModel};
use crate::model::{copy_all, deep, group_deep};
use crate::state::found_all;
use crate::tensor::{extents_ordered, ShardExtent, AMP_COLUMN_MICRO};
use vstd::prelude::*;

verus! {

// ---------------------------------------------------------------- intersection

pub open spec fn min(a: u32, b: u32) -> u32 {
    if a <= b {
        a
    } else {
        b
    }
}

pub open spec fn max(a: u32, b: u32) -> u32 {
    if a >= b {
        a
    } else {
        b
    }
}

pub fn min_u32(a: u32, b: u32) -> (r: u32)
    ensures
        r == min(a, b),
{
    if a <= b {
        a
    } else {
        b
    }
}

pub fn max_u32(a: u32, b: u32) -> (r: u32)
    ensures
        r == max(a, b),
{
    if a >= b {
        a
    } else {
        b
    }
}

/// Both ranges hold a common useful element.
pub open spec fn overlaps(left: ShardExtent, right: ShardExtent) -> bool {
    max(left.start, right.start) < min(left.logical_end, right.logical_end)
}

/// The common useful elements of two ranges.
pub open spec fn overlap(left: ShardExtent, right: ShardExtent) -> ShardExtent {
    ShardExtent {
        axis: left.axis,
        start: max(left.start, right.start),
        logical_end: min(left.logical_end, right.logical_end),
        physical_end: min(left.logical_end, right.logical_end),
    }
}

/// Padding at the end of a range.
pub open spec fn tail(extent: ShardExtent) -> u32 {
    if extent.physical_end >= extent.logical_end {
        (extent.physical_end - extent.logical_end) as u32
    } else {
        0
    }
}

/// The common elements of two ranges. Where both end their useful elements at
/// the same place, the padding that both have belongs to the result.
pub open spec fn padded_overlap(left: ShardExtent, right: ShardExtent) -> ShardExtent {
    let inner = overlap(left, right);
    ShardExtent {
        physical_end: if left.logical_end == right.logical_end {
            (inner.logical_end + min(tail(left), tail(right))) as u32
        } else {
            inner.logical_end
        },
        ..inner
    }
}

/// Two rectangles of one rank overlap on every axis.
pub open spec fn rectangles_overlap(left: Seq<ShardExtent>, right: Seq<ShardExtent>) -> bool {
    &&& left.len() == right.len()
    &&& forall|i: int| 0 <= i < left.len() ==> overlaps(#[trigger] left[i], right[i])
}

/// The useful elements that two rectangles share.
pub open spec fn intersection(left: Seq<ShardExtent>, right: Seq<ShardExtent>) -> Option<
    Seq<ShardExtent>,
> {
    if rectangles_overlap(left, right) {
        Some(Seq::new(left.len(), |i: int| overlap(left[i], right[i])))
    } else {
        None
    }
}

/// The elements that two rectangles share, with the padding that they share.
pub open spec fn padded_intersection(left: Seq<ShardExtent>, right: Seq<ShardExtent>) -> Option<
    Seq<ShardExtent>,
> {
    if rectangles_overlap(left, right) {
        Some(Seq::new(left.len(), |i: int| padded_overlap(left[i], right[i])))
    } else {
        None
    }
}

/// `r` has the given elements, or both are absent.
pub open spec fn extents_are(
    r: Option<Vec<ShardExtent>>,
    expected: Option<Seq<ShardExtent>>,
) -> bool {
    match r {
        Some(extents) => expected == Some(extents@),
        None => expected is None,
    }
}

pub fn intersect_extents(left: &[ShardExtent], right: &[ShardExtent]) -> (r: Option<
    Vec<ShardExtent>,
>)
    ensures
        extents_are(r, intersection(left@, right@)),
{
    if left.len() != right.len() {
        return None;
    }
    let mut extents: Vec<ShardExtent> = Vec::new();
    let mut i: usize = 0;
    while i < left.len()
        invariant
            i <= left@.len(),
            extents@.len() == i,
            forall|k: int| 0 <= k < i ==> overlaps(#[trigger] left@[k], right@[k]),
            forall|k: int| 0 <= k < i ==> extents@[k] == overlap(left@[k], right@[k]),
        decreases left@.len() - i,
    {
        let start: u32 = max_u32(left[i].start, right[i].start);
        let end: u32 = min_u32(left[i].logical_end, right[i].logical_end);
        if start >= end {
            assert(!overlaps(left@[i as int], right@[i as int]));
            return None;
        }
        extents.push(
            ShardExtent { axis: left[i].axis, start, logical_end: end, physical_end: end },
        );
        i += 1;
    }
    assert(extents@ =~= Seq::new(left@.len(), |i: int| overlap(left@[i], right@[i])));
    Some(extents)
}

pub fn intersect_extents_with_shared_padding(left: &[ShardExtent], right: &[ShardExtent]) -> (r:
    Option<Vec<ShardExtent>>)
    ensures
        extents_are(r, padded_intersection(left@, right@)),
{
    if left.len() != right.len() {
        return None;
    }
    let mut extents: Vec<ShardExtent> = Vec::new();
    let mut i: usize = 0;
    while i < left.len()
        invariant
            i <= left@.len(),
            extents@.len() == i,
            forall|k: int| 0 <= k < i ==> overlaps(#[trigger] left@[k], right@[k]),
            forall|k: int| 0 <= k < i ==> extents@[k] == padded_overlap(left@[k], right@[k]),
        decreases left@.len() - i,
    {
        let a: ShardExtent = left[i];
        let b: ShardExtent = right[i];
        let start: u32 = max_u32(a.start, b.start);
        let logical_end: u32 = min_u32(a.logical_end, b.logical_end);
        if start >= logical_end {
            assert(!overlaps(left@[i as int], right@[i as int]));
            return None;
        }
        let shared_tail: u32 = if a.logical_end == b.logical_end {
            min_u32(
                a.physical_end.saturating_sub(a.logical_end),
                b.physical_end.saturating_sub(b.logical_end),
            )
        } else {
            0
        };
        extents.push(
            ShardExtent {
                axis: a.axis,
                start,
                logical_end,
                physical_end: logical_end + shared_tail,
            },
        );
        i += 1;
    }
    assert(extents@ =~= Seq::new(left@.len(), |i: int| padded_overlap(left@[i], right@[i])));
    Some(extents)
}

/// An element of a tensor is a useful element of a rectangle.
pub open spec fn covers(extents: Seq<ShardExtent>, element: Seq<int>) -> bool {
    &&& element.len() == extents.len()
    &&& forall|i: int|
        0 <= i < extents.len() ==> (#[trigger] extents[i]).start <= element[i]
            < extents[i].logical_end
}

/// The intersection holds exactly the useful elements of both rectangles.
pub proof fn lemma_intersection_covers_common_elements(
    left: Seq<ShardExtent>,
    right: Seq<ShardExtent>,
    element: Seq<int>,
)
    ensures
        match intersection(left, right) {
            Some(common) => covers(common, element) <==> covers(left, element) && covers(
                right,
                element,
            ),
            None => !(covers(left, element) && covers(right, element)),
        },
{
    if rectangles_overlap(left, right) {
        let common = intersection(left, right)->Some_0;
        if covers(common, element) {
            assert forall|i: int| 0 <= i < left.len() implies (#[trigger] left[i]).start
                <= element[i] < left[i].logical_end by {
                assert(common[i].start <= element[i]);
            }
            assert forall|i: int| 0 <= i < right.len() implies (#[trigger] right[i]).start
                <= element[i] < right[i].logical_end by {
                assert(common[i].start <= element[i]);
            }
        }
    } else if covers(left, element) && covers(right, element) {
        let i = choose|i: int| 0 <= i < left.len() && !overlaps(#[trigger] left[i], right[i]);
        assert(left[i].start <= element[i] < left[i].logical_end);
        assert(right[i].start <= element[i] < right[i].logical_end);
    }
}

/// Shared padding stays inside both rectangles, so that it never claims the
/// elements of a neighbour, and the useful elements are those of the plain
/// intersection.
pub proof fn lemma_shared_padding_stays_inside(left: Seq<ShardExtent>, right: Seq<ShardExtent>)
    requires
        extents_ordered(left),
        extents_ordered(right),
        padded_intersection(left, right) is Some,
    ensures
        ({
            let padded = padded_intersection(left, right)->Some_0;
            let plain = intersection(left, right)->Some_0;
            &&& padded.len() == left.len()
            &&& forall|i: int|
                #![trigger padded[i]]
                0 <= i < padded.len() ==> {
                    &&& padded[i].start == plain[i].start
                    &&& padded[i].logical_end == plain[i].logical_end
                    &&& padded[i].physical_end <= left[i].physical_end
                    &&& padded[i].physical_end <= right[i].physical_end
                    &&& padded[i].physical_end > padded[i].logical_end ==> padded[i].logical_end
                        == left[i].logical_end && padded[i].logical_end == right[i].logical_end
                    &&& padded[i].ordered()
                }
        }),
{
    let padded = padded_intersection(left, right)->Some_0;
    assert forall|i: int| #![trigger padded[i]] 0 <= i < padded.len() implies padded[i].physical_end
        <= left[i].physical_end && padded[i].ordered() by {
        assert(left[i].ordered());
        assert(right[i].ordered());
        assert(overlaps(left[i], right[i]));
    }
    assert forall|i: int| #![trigger padded[i]] 0 <= i < padded.len() implies padded[i].physical_end
        <= right[i].physical_end by {
        assert(left[i].ordered());
        assert(right[i].ordered());
        assert(overlaps(left[i], right[i]));
    }
}

// ---------------------------------------------------------------- split heads

/// Where the columns of an attention stream stand in the joined tensor: the
/// batch, the first column of the head, or the reason why there is none.
pub open spec fn split_head_source(
    output: Seq<ShardExtent>,
    heads: u32,
    head_width: u32,
) -> Result<(Seq<ShardExtent>, u32), LowLoweringError> {
    if output.len() != 3 || heads == 0 || output[0].logical_end - output[0].start != 1
        || output[2].logical_end > head_width {
        Err(LowLoweringError::InvalidOperatorPlan)
    } else {
        let stream = output[0].start as int;
        let batch = stream / (heads as int);
        let base = (stream % (heads as int)) * head_width;
        if base + output[2].logical_end > u32::MAX || base + output[2].start > u32::MAX {
            Err(LowLoweringError::IdOverflow)
        } else {
            Ok(
                (
                    seq![
                        ShardExtent {
                            axis: 0,
                            start: batch as u32,
                            logical_end: (batch + 1) as u32,
                            physical_end: (batch + 1) as u32,
                        },
                        ShardExtent {
                            axis: 1,
                            start: output[1].start,
                            logical_end: output[1].logical_end,
                            physical_end: output[1].logical_end,
                        },
                        ShardExtent {
                            axis: 2,
                            start: (base + output[2].start) as u32,
                            logical_end: (base + output[2].logical_end) as u32,
                            physical_end: (base + output[2].logical_end) as u32,
                        },
                    ],
                    base as u32,
                ),
            )
        }
    }
}

pub fn split_head_source_extents(output: &[ShardExtent], heads: u32, head_width: u32) -> (r:
    LowLoweringResult<(Vec<ShardExtent>, u32)>)
    ensures
        match r {
            Ok((extents, base)) => split_head_source(output@, heads, head_width) == Ok::<
                (Seq<ShardExtent>, u32),
                LowLoweringError,
            >((extents@, base)),
            Err(e) => split_head_source(output@, heads, head_width) == Err::<
                (Seq<ShardExtent>, u32),
                LowLoweringError,
            >(e),
        },
{
    if output.len() != 3 || heads == 0 || output[0].logical_end <= output[0].start
        || output[0].logical_end - output[0].start != 1 || output[2].logical_end > head_width {
        return Err(LowLoweringError::InvalidOperatorPlan);
    }
    let stream: u32 = output[0].start;
    let batch: u32 = stream / heads;
    let head: u32 = stream % heads;
    proof {
        assert(batch <= stream) by (nonlinear_arith)
            requires
                batch == stream / heads,
                heads > 0,
        ;
        assert(0 <= head * head_width <= 0xffff_ffff * 0xffff_ffff) by (nonlinear_arith)
            requires
                head <= 0xffff_ffff,
                head_width <= 0xffff_ffff,
        ;
    }
    let base: u64 = head as u64 * head_width as u64;
    let start: u64 = base + output[2].start as u64;
    let end: u64 = base + output[2].logical_end as u64;
    if end > 0xffff_ffff || start > 0xffff_ffff {
        return Err(LowLoweringError::IdOverflow);
    }
    let mut extents: Vec<ShardExtent> = Vec::new();
    extents.push(
        ShardExtent { axis: 0, start: batch, logical_end: batch + 1, physical_end: batch + 1 },
    );
    extents.push(
        ShardExtent {
            axis: 1,
            start: output[1].start,
            logical_end: output[1].logical_end,
            physical_end: output[1].logical_end,
        },
    );
    extents.push(
        ShardExtent {
            axis: 2,
            start: start as u32,
            logical_end: end as u32,
            physical_end: end as u32,
        },
    );
    proof {
        let expected = split_head_source(output@, heads, head_width)->Ok_0.0;
        assert(extents@ =~= expected);
    }
    Ok((extents, base as u32))
}

/// Two streams of one tensor read the same source column of a batch only if
/// they are the same stream and column: splitting heads loses and repeats
/// nothing.
pub proof fn lemma_split_heads_is_injective(
    heads: int,
    head_width: int,
    stream: int,
    column: int,
    other_stream: int,
    other_column: int,
)
    requires
        heads > 0,
        0 <= stream,
        0 <= other_stream,
        0 <= column < head_width,
        0 <= other_column < head_width,
        stream / heads == other_stream / heads,
        (stream % heads) * head_width + column == (other_stream % heads) * head_width
            + other_column,
    ensures
        stream == other_stream,
        column == other_column,
{
    let a = stream % heads;
    let b = other_stream % heads;
    assert(a == b) by (nonlinear_arith)
        requires
            a * head_width + column == b * head_width + other_column,
            0 <= column < head_width,
            0 <= other_column < head_width,
    ;
    vstd::arithmetic::div_mod::lemma_fundamental_div_mod(stream, heads);
    vstd::arithmetic::div_mod::lemma_fundamental_div_mod(other_stream, heads);
}

// ---------------------------------------------------------------- panels

/// The length of the next piece of a range of `width` elements: it ends with
/// the range, or where either allocation's panel ends.
pub open spec fn piece_length(
    width: int,
    source_position: int,
    destination_position: int,
    panel: int,
    other_panel: int,
) -> int {
    let a = panel - source_position % panel;
    let b = other_panel - destination_position % other_panel;
    let shorter = if a <= b {
        a
    } else {
        b
    };
    if width <= shorter {
        width
    } else {
        shorter
    }
}

/// The part of a range that starts `offset` elements in and is `length` long.
pub open spec fn piece(extent: ShardExtent, offset: int, length: int) -> ShardExtent {
    let start = (extent.start + offset) as u32;
    let end = (extent.start + offset + length) as u32;
    ShardExtent {
        axis: extent.axis,
        start,
        logical_end: max(min(extent.logical_end, end), start),
        physical_end: end,
    }
}

/// `done` followed by the matching pieces of two ranges from `offset` on.
pub open spec fn pieces_from(
    source: ShardExtent,
    source_origin: u32,
    destination: ShardExtent,
    destination_origin: u32,
    panel: u32,
    other_panel: u32,
    offset: int,
    done: Seq<(ShardExtent, ShardExtent)>,
) -> Seq<(ShardExtent, ShardExtent)>
    decreases source.physical_end - source.start - offset,
{
    let width = source.physical_end - source.start;
    let length = piece_length(
        width - offset,
        source.start - source_origin + offset,
        destination.start - destination_origin + offset,
        panel as int,
        other_panel as int,
    );
    if offset >= width || length <= 0 {
        done
    } else {
        pieces_from(
            source,
            source_origin,
            destination,
            destination_origin,
            panel,
            other_panel,
            offset + length,
            done.push((piece(source, offset, length), piece(destination, offset, length))),
        )
    }
}

/// Two ranges divided alike, so that no piece crosses a panel boundary of
/// either allocation. Both must be of one width, with and without padding, and
/// start inside their allocations.
pub open spec fn aligned_pieces(
    source: ShardExtent,
    source_origin: u32,
    destination: ShardExtent,
    destination_origin: u32,
    panel: u32,
    other_panel: u32,
) -> Result<Seq<(ShardExtent, ShardExtent)>, LowLoweringError> {
    if source.logical_end - source.start != destination.logical_end - destination.start
        || source.physical_end - source.start != destination.physical_end - destination.start
        || source.physical_end < source.start {
        Err(LowLoweringError::InvalidOperatorPlan)
    } else if source.physical_end > source.start && (source.start < source_origin
        || destination.start < destination_origin || panel == 0 || other_panel == 0) {
        Err(LowLoweringError::InvalidOperatorPlan)
    } else {
        Ok(
            pieces_from(
                source,
                source_origin,
                destination,
                destination_origin,
                panel,
                other_panel,
                0,
                Seq::empty(),
            ),
        )
    }
}

/// Divides two ranges alike.
pub fn aligned_ranges(
    source: ShardExtent,
    source_origin: u32,
    destination: ShardExtent,
    destination_origin: u32,
    panel: u32,
    other_panel: u32,
) -> (r: LowLoweringResult<Vec<(ShardExtent, ShardExtent)>>)
    ensures
        match r {
            Ok(pieces) => aligned_pieces(
                source,
                source_origin,
                destination,
                destination_origin,
                panel,
                other_panel,
            ) == Ok::<Seq<(ShardExtent, ShardExtent)>, LowLoweringError>(pieces@),
            Err(e) => aligned_pieces(
                source,
                source_origin,
                destination,
                destination_origin,
                panel,
                other_panel,
            ) == Err::<Seq<(ShardExtent, ShardExtent)>, LowLoweringError>(e),
        },
{
    if source.logical_end as i64 - source.start as i64 != destination.logical_end as i64
        - destination.start as i64 || source.physical_end as i64 - source.start as i64
        != destination.physical_end as i64 - destination.start as i64 || source.physical_end
        < source.start {
        return Err(LowLoweringError::InvalidOperatorPlan);
    }
    let width: u32 = source.physical_end - source.start;
    if width > 0 && (source.start < source_origin || destination.start < destination_origin || panel
        == 0 || other_panel == 0) {
        return Err(LowLoweringError::InvalidOperatorPlan);
    }
    let mut pieces: Vec<(ShardExtent, ShardExtent)> = Vec::new();
    let mut offset: u32 = 0;
    while offset < width
        invariant
            offset <= width,
            pieces_from(
                source,
                source_origin,
                destination,
                destination_origin,
                panel,
                other_panel,
                0,
                Seq::empty(),
            ) == pieces_from(
                source,
                source_origin,
                destination,
                destination_origin,
                panel,
                other_panel,
                offset as int,
                pieces@,
            ),
        decreases width - offset,
    {
        let source_position: u32 = source.start - source_origin + offset;
        let destination_position: u32 = destination.start - destination_origin + offset;
        let source_remaining: u32 = panel - source_position % panel;
        let destination_remaining: u32 = other_panel - destination_position % other_panel;
        let length: u32 = min_u32(
            width - offset,
            min_u32(source_remaining, destination_remaining),
        );
        let source_start: u32 = source.start + offset;
        let destination_start: u32 = destination.start + offset;
        pieces.push(
            (
                ShardExtent {
                    axis: source.axis,
                    start: source_start,
                    logical_end: max_u32(
                        min_u32(source.logical_end, source_start + length),
                        source_start,
                    ),
                    physical_end: source_start + length,
                },
                ShardExtent {
                    axis: destination.axis,
                    start: destination_start,
                    logical_end: max_u32(
                        min_u32(destination.logical_end, destination_start + length),
                        destination_start,
                    ),
                    physical_end: destination_start + length,
                },
            ),
        );
        offset += length;
    }
    Ok(pieces)
}

/// Pieces follow each other without gaps and none crosses a panel boundary.
pub open spec fn tiles_range(
    extent: ShardExtent,
    origin: u32,
    panel: u32,
    pieces: Seq<ShardExtent>,
    width: int,
) -> bool {
    &&& width == 0 ==> pieces.len() == 0
    &&& pieces.len() > 0 ==> pieces[0].start == extent.start && pieces.last().physical_end
        == extent.start + width
    &&& forall|k: int|
        #![trigger pieces[k]]
        0 <= k < pieces.len() ==> {
            &&& pieces[k].start < pieces[k].physical_end
            &&& pieces[k].axis == extent.axis
            &&& (pieces[k].start - origin) % (panel as int) + (pieces[k].physical_end
                - pieces[k].start) <= panel
            &&& pieces[k].logical_end == max(
                min(extent.logical_end, pieces[k].physical_end),
                pieces[k].start,
            )
            &&& k + 1 < pieces.len() ==> pieces[k + 1].start == pieces[k].physical_end
        }
}

/// The source sides of matched pieces.
pub open spec fn sources(pieces: Seq<(ShardExtent, ShardExtent)>) -> Seq<ShardExtent> {
    Seq::new(pieces.len(), |i: int| pieces[i].0)
}

/// The destination sides of matched pieces.
pub open spec fn destinations(pieces: Seq<(ShardExtent, ShardExtent)>) -> Seq<ShardExtent> {
    Seq::new(pieces.len(), |i: int| pieces[i].1)
}

proof fn lemma_tiles_push(
    extent: ShardExtent,
    origin: u32,
    panel: u32,
    pieces: Seq<ShardExtent>,
    offset: int,
    length: int,
)
    requires
        0 <= offset,
        0 < length,
        extent.start + offset + length <= extent.physical_end,
        (extent.start - origin + offset) % (panel as int) + length <= panel,
        offset > 0 ==> pieces.len() > 0,
        tiles_range(extent, origin, panel, pieces, offset),
    ensures
        tiles_range(
            extent,
            origin,
            panel,
            pieces.push(piece(extent, offset, length)),
            offset + length,
        ),
{
    let new = piece(extent, offset, length);
    let next = pieces.push(new);
    let last = pieces.len() as int;
    assert(new.start == extent.start + offset);
    assert(new.start - origin == extent.start - origin + offset);
    assert forall|k: int| #![trigger next[k]] 0 <= k < next.len() implies {
        &&& next[k].start < next[k].physical_end
        &&& next[k].axis == extent.axis
        &&& (next[k].start - origin) % (panel as int) + (next[k].physical_end - next[k].start)
            <= panel
        &&& next[k].logical_end == max(
            min(extent.logical_end, next[k].physical_end),
            next[k].start,
        )
        &&& k + 1 < next.len() ==> next[k + 1].start == next[k].physical_end
    } by {
        if k < last {
            assert(next[k] == pieces[k]);
            if k + 1 == last {
                assert(pieces.last() == pieces[k]);
            }
        }
    }
}

proof fn lemma_pieces_from(
    source: ShardExtent,
    source_origin: u32,
    destination: ShardExtent,
    destination_origin: u32,
    panel: u32,
    other_panel: u32,
    offset: int,
    done: Seq<(ShardExtent, ShardExtent)>,
)
    requires
        source.start <= source.physical_end,
        source.physical_end - source.start == destination.physical_end - destination.start,
        source_origin <= source.start,
        destination_origin <= destination.start,
        panel > 0,
        other_panel > 0,
        0 <= offset <= source.physical_end - source.start,
        offset > 0 ==> done.len() > 0,
        tiles_range(source, source_origin, panel, sources(done), offset),
        tiles_range(destination, destination_origin, other_panel, destinations(done), offset),
    ensures
        ({
            let pieces = pieces_from(
                source,
                source_origin,
                destination,
                destination_origin,
                panel,
                other_panel,
                offset,
                done,
            );
            let width = source.physical_end - source.start;
            &&& tiles_range(source, source_origin, panel, sources(pieces), width)
            &&& tiles_range(
                destination,
                destination_origin,
                other_panel,
                destinations(pieces),
                width,
            )
            &&& width > 0 ==> pieces.len() > 0
        }),
    decreases source.physical_end - source.start - offset,
{
    let width = source.physical_end - source.start;
    let length = piece_length(
        width - offset,
        source.start - source_origin + offset,
        destination.start - destination_origin + offset,
        panel as int,
        other_panel as int,
    );
    assert(0 <= (source.start - source_origin + offset) % (panel as int) < panel)
        by (nonlinear_arith)
        requires
            panel > 0,
    ;
    assert(0 <= (destination.start - destination_origin + offset) % (other_panel as int)
        < other_panel) by (nonlinear_arith)
        requires
            other_panel > 0,
    ;
    if offset < width {
        assert(length > 0);
        let next = done.push(
            (piece(source, offset, length), piece(destination, offset, length)),
        );
        assert(sources(next) =~= sources(done).push(piece(source, offset, length)));
        assert(destinations(next) =~= destinations(done).push(piece(destination, offset, length)));
        lemma_tiles_push(source, source_origin, panel, sources(done), offset, length);
        lemma_tiles_push(
            destination,
            destination_origin,
            other_panel,
            destinations(done),
            offset,
            length,
        );
        lemma_pieces_from(
            source,
            source_origin,
            destination,
            destination_origin,
            panel,
            other_panel,
            offset + length,
            next,
        );
    }
}

/// Matching pieces divide both ranges completely, and no piece crosses a panel
/// boundary of its allocation.
pub proof fn lemma_aligned_pieces_tile_both_ranges(
    source: ShardExtent,
    source_origin: u32,
    destination: ShardExtent,
    destination_origin: u32,
    panel: u32,
    other_panel: u32,
)
    requires
        source.start < source.physical_end,
        aligned_pieces(
            source,
            source_origin,
            destination,
            destination_origin,
            panel,
            other_panel,
        ) is Ok,
    ensures
        ({
            let pieces = aligned_pieces(
                source,
                source_origin,
                destination,
                destination_origin,
                panel,
                other_panel,
            )->Ok_0;
            let width = source.physical_end - source.start;
            &&& pieces.len() > 0
            &&& tiles_range(source, source_origin, panel, sources(pieces), width)
            &&& tiles_range(
                destination,
                destination_origin,
                other_panel,
                destinations(pieces),
                width,
            )
        }),
{
    lemma_pieces_from(
        source,
        source_origin,
        destination,
        destination_origin,
        panel,
        other_panel,
        0,
        Seq::empty(),
    );
}

/// Rows that a panel still holds after `rows` of them.
pub open spec fn panel_tail(rows: int) -> int {
    (AMP_COLUMN_MICRO - rows % (AMP_COLUMN_MICRO as int)) % (AMP_COLUMN_MICRO as int)
}

/// Padding rows that two views can carry along where both reach the last row
/// of their tensors: rows of the same panel that both allocations hold.
pub open spec fn row_padding(
    source_rows: ShardExtent,
    source_allocation: ShardExtent,
    source_height: u32,
    destination_rows: ShardExtent,
    destination_allocation: ShardExtent,
    destination_height: u32,
) -> Result<u32, LowLoweringError> {
    if source_rows.logical_end != source_height || destination_rows.logical_end
        != destination_height {
        Ok(0)
    } else if source_rows.logical_end < source_allocation.start || source_rows.logical_end
        > source_allocation.physical_end || destination_rows.logical_end
        < destination_allocation.start || destination_rows.logical_end
        > destination_allocation.physical_end {
        Err(LowLoweringError::InvalidOperatorPlan)
    } else {
        let a = panel_tail(source_rows.logical_end - source_allocation.start) as u32;
        let b = panel_tail(destination_rows.logical_end - destination_allocation.start) as u32;
        let c = (source_allocation.physical_end - source_rows.logical_end) as u32;
        let d = (destination_allocation.physical_end - destination_rows.logical_end) as u32;
        Ok(min(min(a, b), min(c, d)))
    }
}

fn row_padding_of(
    source_rows: ShardExtent,
    source_allocation: ShardExtent,
    source_height: u32,
    destination_rows: ShardExtent,
    destination_allocation: ShardExtent,
    destination_height: u32,
) -> (r: LowLoweringResult<u32>)
    ensures
        r == row_padding(
            source_rows,
            source_allocation,
            source_height,
            destination_rows,
            destination_allocation,
            destination_height,
        ),
{
    if source_rows.logical_end != source_height || destination_rows.logical_end
        != destination_height {
        return Ok(0);
    }
    if source_rows.logical_end < source_allocation.start || source_rows.logical_end
        > source_allocation.physical_end || destination_rows.logical_end
        < destination_allocation.start || destination_rows.logical_end
        > destination_allocation.physical_end {
        return Err(LowLoweringError::InvalidOperatorPlan);
    }
    let a: u32 = (AMP_COLUMN_MICRO - (source_rows.logical_end - source_allocation.start)
        % AMP_COLUMN_MICRO) % AMP_COLUMN_MICRO;
    let b: u32 = (AMP_COLUMN_MICRO - (destination_rows.logical_end - destination_allocation.start)
        % AMP_COLUMN_MICRO) % AMP_COLUMN_MICRO;
    let c: u32 = source_allocation.physical_end - source_rows.logical_end;
    let d: u32 = destination_allocation.physical_end - destination_rows.logical_end;
    Ok(min_u32(min_u32(a, b), min_u32(c, d)))
}

/// A rectangle whose leading axes are all one element wide.
pub open spec fn is_matrix(extents: Seq<ShardExtent>) -> bool {
    extents.len() >= 2 && forall|i: int|
        0 <= i < extents.len() - 2 ==> (#[trigger] extents[i]).logical_end == extents[i].start + 1
}

fn is_one_matrix(extents: &[ShardExtent]) -> (r: bool)
    ensures
        r == is_matrix(extents@),
{
    if extents.len() < 2 {
        return false;
    }
    let mut i: usize = 0;
    while i < extents.len() - 2
        invariant
            i <= extents@.len() - 2,
            forall|k: int|
                0 <= k < i ==> (#[trigger] extents@[k]).logical_end == extents@[k].start + 1,
        decreases extents@.len() - 2 - i,
    {
        if extents[i].logical_end <= extents[i].start || extents[i].logical_end - extents[i].start
            != 1 {
            assert(extents@[i as int].logical_end != extents@[i as int].start + 1);
            return false;
        }
        i += 1;
    }
    true
}

/// The last two axes of a rectangle replaced.
pub open spec fn with_matrix(
    extents: Seq<ShardExtent>,
    row: ShardExtent,
    column: ShardExtent,
) -> Seq<ShardExtent> {
    extents.update(extents.len() - 2, row).update(extents.len() - 1, column)
}

/// `done` followed by the mapped pieces of one row piece, from column `c` on.
pub open spec fn row_pieces_from(
    source: ViewModel,
    destination: ViewModel,
    row: (ShardExtent, ShardExtent),
    columns: Seq<(ShardExtent, ShardExtent)>,
    c: int,
    done: Seq<(ViewModel, ViewModel)>,
) -> Seq<(ViewModel, ViewModel)>
    decreases columns.len() - c,
{
    if c >= columns.len() {
        done
    } else {
        row_pieces_from(
            source,
            destination,
            row,
            columns,
            c + 1,
            done.push(
                (
                    ViewModel {
                        shard: source.shard,
                        extents: with_matrix(source.extents, row.0, columns[c].0),
                    },
                    ViewModel {
                        shard: destination.shard,
                        extents: with_matrix(destination.extents, row.1, columns[c].1),
                    },
                ),
            ),
        )
    }
}

/// `done` followed by the mapped pieces from row piece `r` on.
pub open spec fn matrix_pieces_from(
    source: ViewModel,
    destination: ViewModel,
    rows: Seq<(ShardExtent, ShardExtent)>,
    columns: Seq<(ShardExtent, ShardExtent)>,
    r: int,
    done: Seq<(ViewModel, ViewModel)>,
) -> Seq<(ViewModel, ViewModel)>
    decreases rows.len() - r,
{
    if r >= rows.len() {
        done
    } else {
        matrix_pieces_from(
            source,
            destination,
            rows,
            columns,
            r + 1,
            row_pieces_from(source, destination, rows[r], columns, 0, done),
        )
    }
}

/// A range with `padding` more elements at its end.
pub open spec fn extended(extent: ShardExtent, padding: u32) -> ShardExtent {
    ShardExtent { physical_end: (extent.physical_end + padding) as u32, ..extent }
}

/// Two corresponding matrix views divided at the panel boundaries of both
/// allocations. Row padding that both hold goes along; the columns after a
/// view may belong to other values, so column padding does not.
pub open spec fn panel_mappings(
    source_shard: ShardModel,
    source: ViewModel,
    destination_shard: ShardModel,
    destination: ViewModel,
) -> Result<Seq<(ViewModel, ViewModel)>, LowLoweringError> {
    let m = source.extents.len() as int;
    let n = destination.extents.len() as int;
    if !is_matrix(source.extents) || !is_matrix(destination.extents)
        || source_shard.extents.len() != m || destination_shard.extents.len() != n
        || source_shard.tensor_type.shape.len() < m - 1 || (source.extents[m - 2].logical_end
        == source_shard.tensor_type.shape[m - 2] && destination_shard.tensor_type.shape.len() < n
        - 1) {
        Err(LowLoweringError::InvalidOperatorPlan)
    } else {
        match row_padding(
            source.extents[m - 2],
            source_shard.extents[m - 2],
            source_shard.tensor_type.shape[m - 2],
            destination.extents[n - 2],
            destination_shard.extents[n - 2],
            destination_shard.tensor_type.shape[n - 2],
        ) {
            Err(e) => Err(e),
            Ok(padding) => if source.extents[m - 2].physical_end + padding > u32::MAX
                || destination.extents[n - 2].physical_end + padding > u32::MAX {
                Err(LowLoweringError::IdOverflow)
            } else {
                match aligned_pieces(
                    extended(source.extents[m - 2], padding),
                    source_shard.extents[m - 2].start,
                    extended(destination.extents[n - 2], padding),
                    destination_shard.extents[n - 2].start,
                    AMP_COLUMN_MICRO,
                    AMP_COLUMN_MICRO,
                ) {
                    Err(e) => Err(e),
                    Ok(rows) => match aligned_pieces(
                        source.extents[m - 1],
                        source_shard.extents[m - 1].start,
                        destination.extents[n - 1],
                        destination_shard.extents[n - 1].start,
                        AMP_COLUMN_MICRO,
                        AMP_COLUMN_MICRO,
                    ) {
                        Err(e) => Err(e),
                        Ok(columns) => Ok(
                            matrix_pieces_from(
                                source,
                                destination,
                                rows,
                                columns,
                                0,
                                Seq::empty(),
                            ),
                        ),
                    },
                }
            },
        }
    }
}

/// Replaces the last two axes of a rectangle.
pub fn replace_matrix(extents: &Vec<ShardExtent>, row: ShardExtent, column: ShardExtent) -> (r: Vec<
    ShardExtent,
>)
    requires
        extents@.len() >= 2,
    ensures
        r@ == with_matrix(extents@, row, column),
{
    let rank = extents.len();
    let mut r = copy_all(extents.as_slice());
    r.set(rank - 2, row);
    r.set(rank - 1, column);
    r
}

/// Divides corresponding views at the panel boundaries of both allocations, so
/// that every piece has one physical traversal on both sides.
pub fn split_mapping_at_panel_boundaries(
    source_shard: &LowShard,
    source: &ShardView,
    destination_shard: &LowShard,
    destination: &ShardView,
) -> (r: LowLoweringResult<Vec<(ShardView, ShardView)>>)
    ensures
        found_all(
            r,
            panel_mappings(source_shard@, source@, destination_shard@, destination@),
        ),
{
    broadcast use group_deep;

    let m = source.extents.len();
    let n = destination.extents.len();
    if !is_one_matrix(source.extents.as_slice()) || !is_one_matrix(destination.extents.as_slice())
        || source_shard.extents.len() != m || destination_shard.extents.len() != n
        || source_shard.tensor_type.shape.0.len() < m - 1 {
        return Err(LowLoweringError::InvalidOperatorPlan);
    }
    let mut source_rows: ShardExtent = source.extents[m - 2];
    let mut destination_rows: ShardExtent = destination.extents[n - 2];
    let height: u32 = if destination_shard.tensor_type.shape.0.len() >= n - 1 {
        destination_shard.tensor_type.shape.0[n - 2]
    } else if source_rows.logical_end == source_shard.tensor_type.shape.0[m - 2] {
        return Err(LowLoweringError::InvalidOperatorPlan);
    } else {
        0
    };
    let padding: u32 = row_padding_of(
        source_rows,
        source_shard.extents[m - 2],
        source_shard.tensor_type.shape.0[m - 2],
        destination_rows,
        destination_shard.extents[n - 2],
        height,
    )?;
    if source_rows.physical_end as u64 + padding as u64 > 0xffff_ffff
        || destination_rows.physical_end as u64 + padding as u64 > 0xffff_ffff {
        return Err(LowLoweringError::IdOverflow);
    }
    source_rows.physical_end = source_rows.physical_end + padding;
    destination_rows.physical_end = destination_rows.physical_end + padding;
    let rows = aligned_ranges(
        source_rows,
        source_shard.extents[m - 2].start,
        destination_rows,
        destination_shard.extents[n - 2].start,
        AMP_COLUMN_MICRO,
        AMP_COLUMN_MICRO,
    )?;
    let columns = aligned_ranges(
        source.extents[m - 1],
        source_shard.extents[m - 1].start,
        destination.extents[n - 1],
        destination_shard.extents[n - 1].start,
        AMP_COLUMN_MICRO,
        AMP_COLUMN_MICRO,
    )?;
    let mut pieces: Vec<(ShardView, ShardView)> = Vec::new();
    let mut r: usize = 0;
    while r < rows.len()
        invariant
            r <= rows@.len(),
            matrix_pieces_from(source@, destination@, rows@, columns@, 0, Seq::empty())
                == matrix_pieces_from(
                source@,
                destination@,
                rows@,
                columns@,
                r as int,
                deep(pieces@),
            ),
        decreases rows@.len() - r,
    {
        let (source_row, destination_row) = rows[r];
        let ghost before = deep(pieces@);
        let mut c: usize = 0;
        while c < columns.len()
            invariant
                c <= columns@.len(),
                row_pieces_from(source@, destination@, rows@[r as int], columns@, 0, before)
                    == row_pieces_from(
                    source@,
                    destination@,
                    rows@[r as int],
                    columns@,
                    c as int,
                    deep(pieces@),
                ),
            decreases columns@.len() - c,
        {
            let (source_column, destination_column) = columns[c];
            let source_piece = ShardView {
                shard: source.shard,
                extents: replace_matrix(&source.extents, source_row, source_column),
            };
            let destination_piece = ShardView {
                shard: destination.shard,
                extents: replace_matrix(
                    &destination.extents,
                    destination_row,
                    destination_column,
                ),
            };
            pieces.push((source_piece, destination_piece));
            c += 1;
        }
        r += 1;
    }
    Ok(pieces)
}

} // verus!
