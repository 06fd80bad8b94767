//! A device whose tensors are stored row by row, with no other element order:
//! every allocation is a dense array of its padded rectangle.

use crate::blocks::{
    same_axis, same_elements, same_geometry, BlockTarget, CopyMapping, CopyOrder,
    DestinationGeometry, MappingModel, Region, StoredView,
};
use crate::fragments::{
    all_word_aligned, are_word_aligned, div_ceil, div_ceil_u64, sat_add, sat_mul, saturating_mul,
};
use crate::extents::{max, max_u32, min, min_u32};
use crate::model::{deep, group_deep};
use crate::target::{
    spans_are, AxisBounds, PartialGrid, ResolvedLayout, ResolvedModel, ResolvedShard, Target,
    TargetCosts,
};
use crate::tensor::{
    AxisTiling, ByteSpan, ElementOrder, FormatModel, Layout, LayoutError, LayoutModel, MemoryClass,
    Precision, ShardExtent, StorageError, TensorAxis, TensorFormat, TensorTiling, TensorType,
    TypeModel, AMP_COLUMN_MICRO,
};
use vstd::prelude::*;

verus! {

/// A device with row-major storage.
#[derive(Clone, Copy, Debug)]
pub struct Linear {
    pub costs: TargetCosts,
}

/// How far a cast that consumes its input writes before it, so that what is not
/// read yet is not overwritten.
pub const CAST_PREFIX_BYTES: u32 = 32768;

// ---------------------------------------------------------------- storage

/// One axis of an allocation with the part of it that a view takes.
#[derive(Clone, Copy, Debug, PartialEq, Eq, Structural)]
pub struct AxisRange {
    pub size: u32,
    pub from: u32,
    pub to: u32,
}

/// The view of one axis lies inside the allocation.
pub open spec fn axis_fits(allocation: ShardExtent, view: ShardExtent) -> bool {
    allocation.start <= view.start <= view.logical_end <= view.physical_end
        <= allocation.physical_end
}

/// One axis of a view, relative to its allocation.
pub open spec fn axis_range(allocation: ShardExtent, view: ShardExtent, padded: bool) -> AxisRange {
    AxisRange {
        size: (allocation.physical_end - allocation.start) as u32,
        from: (view.start - allocation.start) as u32,
        to: if padded {
            (view.physical_end - allocation.start) as u32
        } else {
            (view.logical_end - allocation.start) as u32
        },
    }
}

/// A view relative to its allocation.
pub open spec fn relative_view(
    allocation: Seq<ShardExtent>,
    view: Seq<ShardExtent>,
    padded: bool,
) -> Result<Seq<AxisRange>, StorageError> {
    if allocation.len() == view.len() && forall|i: int|
        0 <= i < view.len() ==> axis_fits(allocation[i], #[trigger] view[i]) {
        Ok(Seq::new(view.len(), |i: int| axis_range(allocation[i], view[i], padded)))
    } else {
        Err(StorageError::InvalidView)
    }
}

/// `done` with one more span, joined with the last one where they touch.
pub open spec fn with_span(done: Seq<ByteSpan>, span: ByteSpan) -> Seq<ByteSpan> {
    if done.len() > 0 && done.last().offset + done.last().bytes == span.offset && done.last().bytes
        + span.bytes <= u32::MAX {
        done.update(
            done.len() - 1,
            ByteSpan {
                offset: done.last().offset,
                bytes: (done.last().bytes + span.bytes) as u32,
            },
        )
    } else {
        done.push(span)
    }
}

/// The bytes of the last axis: a row.
pub open spec fn row_span(range: AxisRange, base: u32, bytes: u64, done: Seq<ByteSpan>) -> Result<
    Seq<ByteSpan>,
    StorageError,
> {
    let at = base * range.size + range.from;
    let length = range.to - range.from;
    if length <= 0 {
        Ok(done)
    } else if (at + length) * bytes > u32::MAX {
        Err(StorageError::Overflow)
    } else {
        Ok(
            with_span(
                done,
                ByteSpan { offset: (at * bytes) as u32, bytes: (length * bytes) as u32 },
            ),
        )
    }
}

/// `done` followed by the bytes of the elements whose position on `axis` is at
/// least `index`. `base` is the position on the axes before.
pub open spec fn rows_from(
    axes: Seq<AxisRange>,
    bytes: u64,
    axis: int,
    base: u32,
    index: int,
    done: Seq<ByteSpan>,
) -> Result<Seq<ByteSpan>, StorageError>
    decreases axes.len() - axis, axes[axis].to - index,
{
    if axis < 0 || axis >= axes.len() {
        Ok(done)
    } else if axis == axes.len() - 1 {
        row_span(axes[axis], base, bytes, done)
    } else if index >= axes[axis].to {
        Ok(done)
    } else if base * axes[axis].size + index > u32::MAX || index < 0 {
        Err(StorageError::Overflow)
    } else {
        match rows_from(
            axes,
            bytes,
            axis + 1,
            (base * axes[axis].size + index) as u32,
            axes[axis + 1].from as int,
            done,
        ) {
            Err(e) => Err(e),
            Ok(next) => rows_from(axes, bytes, axis, base, index + 1, next),
        }
    }
}

/// The bytes of a view, row by row.
pub open spec fn view_rows(
    format: FormatModel,
    allocation: Seq<ShardExtent>,
    view: Seq<ShardExtent>,
    padded: bool,
) -> Result<Seq<ByteSpan>, StorageError> {
    if format.layout.order != ElementOrder::RowMajor {
        Err(StorageError::WrongShard)
    } else {
        match relative_view(allocation, view, padded) {
            Err(e) => Err(e),
            Ok(axes) => if axes.len() == 0 {
                Ok(seq![ByteSpan { offset: 0, bytes: format.precision.spec_bytes() as u32 }])
            } else {
                rows_from(
                    axes,
                    format.precision.spec_bytes(),
                    0,
                    0,
                    axes[0].from as int,
                    Seq::empty(),
                )
            },
        }
    }
}

/// `acc` times the padded elements of the axes from `i` on.
pub open spec fn elements_from(extents: Seq<ShardExtent>, i: int, acc: int) -> Result<
    int,
    StorageError,
>
    decreases extents.len() - i,
{
    if i >= extents.len() {
        Ok(acc)
    } else if extents[i].start > extents[i].physical_end {
        Err(StorageError::InvalidView)
    } else if acc * (extents[i].physical_end - extents[i].start) > u32::MAX {
        Err(StorageError::Overflow)
    } else {
        elements_from(extents, i + 1, acc * (extents[i].physical_end - extents[i].start))
    }
}

/// Bytes of an allocation.
pub open spec fn dense_bytes(format: FormatModel, extents: Seq<ShardExtent>) -> Result<
    u32,
    StorageError,
> {
    if format.layout.order != ElementOrder::RowMajor {
        Err(StorageError::WrongShard)
    } else {
        match elements_from(extents, 0, 1) {
            Err(e) => Err(e),
            Ok(elements) => if elements * format.precision.spec_bytes() > u32::MAX {
                Err(StorageError::Overflow)
            } else {
                Ok((elements * format.precision.spec_bytes()) as u32)
            },
        }
    }
}

/// A view relative to its allocation.
pub fn relate(allocation: &[ShardExtent], view: &[ShardExtent], padded: bool) -> (r: Result<
    Vec<AxisRange>,
    StorageError,
>)
    ensures
        match r {
            Ok(axes) => relative_view(allocation@, view@, padded) == Ok::<
                Seq<AxisRange>,
                StorageError,
            >(axes@),
            Err(e) => relative_view(allocation@, view@, padded) == Err::<
                Seq<AxisRange>,
                StorageError,
            >(e),
        },
{
    if allocation.len() != view.len() {
        return Err(StorageError::InvalidView);
    }
    let mut axes: Vec<AxisRange> = Vec::new();
    let mut i: usize = 0;
    while i < view.len()
        invariant
            i <= view@.len(),
            allocation@.len() == view@.len(),
            axes@.len() == i,
            forall|k: int| 0 <= k < i ==> axis_fits(allocation@[k], #[trigger] view@[k]),
            forall|k: int|
                0 <= k < i ==> (#[trigger] axes@[k]) == axis_range(
                    allocation@[k],
                    view@[k],
                    padded,
                ),
        decreases view@.len() - i,
    {
        let a: ShardExtent = allocation[i];
        let v: ShardExtent = view[i];
        if a.start > v.start || v.start > v.logical_end || v.logical_end > v.physical_end
            || v.physical_end > a.physical_end {
            assert(!axis_fits(allocation@[i as int], view@[i as int]));
            return Err(StorageError::InvalidView);
        }
        let to: u32 = if padded {
            v.physical_end - a.start
        } else {
            v.logical_end - a.start
        };
        axes.push(AxisRange { size: a.physical_end - a.start, from: v.start - a.start, to });
        i += 1;
    }
    assert(axes@ =~= Seq::new(
        view@.len(),
        |i: int| axis_range(allocation@[i], view@[i], padded),
    ));
    Ok(axes)
}

fn push_span(spans: &mut Vec<ByteSpan>, span: ByteSpan)
    ensures
        final(spans)@ == with_span(old(spans)@, span),
{
    let count = spans.len();
    if count > 0 {
        let last: ByteSpan = spans[count - 1];
        if last.offset as u64 + last.bytes as u64 == span.offset as u64 && last.bytes as u64
            + span.bytes as u64 <= 0xffff_ffff {
            spans.set(count - 1, ByteSpan { offset: last.offset, bytes: last.bytes + span.bytes });
            return;
        }
    }
    spans.push(span);
}

fn append_row(range: AxisRange, base: u32, bytes: u64, spans: &mut Vec<ByteSpan>) -> (r: Result<
    (),
    StorageError,
>)
    requires
        1 <= bytes <= 4,
    ensures
        match r {
            Ok(_) => row_span(range, base, bytes, old(spans)@) == Ok::<
                Seq<ByteSpan>,
                StorageError,
            >(final(spans)@),
            Err(e) => row_span(range, base, bytes, old(spans)@) == Err::<
                Seq<ByteSpan>,
                StorageError,
            >(e),
        },
{
    if range.to <= range.from {
        return Ok(());
    }
    assert(0 <= base * range.size <= 0xffff_ffff * 0xffff_ffff) by (nonlinear_arith)
        requires
            0 <= base <= 0xffff_ffff,
            0 <= range.size <= 0xffff_ffff,
    ;
    let at: u64 = base as u64 * range.size as u64 + range.from as u64;
    let length: u64 = (range.to - range.from) as u64;
    let sum: u128 = at as u128 + length as u128;
    assert(0 <= sum * bytes <= 0x1_0000_0000_ffff_ffff * 4) by (nonlinear_arith)
        requires
            0 <= sum <= 0x1_0000_0000_ffff_ffff,
            1 <= bytes <= 4,
    ;
    let end: u128 = sum * bytes as u128;
    if end > 0xffff_ffff {
        return Err(StorageError::Overflow);
    }
    assert(at * bytes + length * bytes == (at + length) * bytes) by (nonlinear_arith);
    assert(at * bytes >= 0 && length * bytes >= 0) by (nonlinear_arith)
        requires
            at >= 0,
            length >= 0,
            bytes >= 0,
    ;
    push_span(spans, ByteSpan { offset: (at * bytes) as u32, bytes: (length * bytes) as u32 });
    Ok(())
}

fn append_rows(
    axes: &Vec<AxisRange>,
    bytes: u64,
    axis: usize,
    base: u32,
    spans: &mut Vec<ByteSpan>,
) -> (r: Result<(), StorageError>)
    requires
        1 <= bytes <= 4,
        axis < axes@.len(),
    ensures
        match r {
            Ok(_) => rows_from(
                axes@,
                bytes,
                axis as int,
                base,
                axes@[axis as int].from as int,
                old(spans)@,
            ) == Ok::<Seq<ByteSpan>, StorageError>(final(spans)@),
            Err(e) => rows_from(
                axes@,
                bytes,
                axis as int,
                base,
                axes@[axis as int].from as int,
                old(spans)@,
            ) == Err::<Seq<ByteSpan>, StorageError>(e),
        },
    decreases axes@.len() - axis,
{
    let range: AxisRange = axes[axis];
    if axis == axes.len() - 1 {
        return append_row(range, base, bytes, spans);
    }
    let ghost before = spans@;
    let mut index: u32 = range.from;
    while index < range.to
        invariant
            axis < axes@.len() - 1,
            rows_from(axes@, bytes, axis as int, base, range.from as int, before) == rows_from(
                axes@,
                bytes,
                axis as int,
                base,
                index as int,
                spans@,
            ),
        decreases range.to - index,
    {
        assert(0 <= base * range.size <= 0xffff_ffff * 0xffff_ffff) by (nonlinear_arith)
            requires
                0 <= base <= 0xffff_ffff,
                0 <= range.size <= 0xffff_ffff,
        ;
        let next: u64 = base as u64 * range.size as u64 + index as u64;
        if next > 0xffff_ffff {
            return Err(StorageError::Overflow);
        }
        append_rows(axes, bytes, axis + 1, next as u32, spans)?;
        index += 1;
    }
    Ok(())
}

fn is_row_major(format: &TensorFormat) -> (r: bool)
    ensures
        r == (format@.layout.order == ElementOrder::RowMajor),
{
    match format.layout.order {
        ElementOrder::RowMajor => true,
        _ => false,
    }
}

fn rows_of(format: &TensorFormat, allocation: &[ShardExtent], view: &[ShardExtent], padded: bool) -> (r:
    Result<Vec<ByteSpan>, StorageError>)
    ensures
        spans_are(r, view_rows(format@, allocation@, view@, padded)),
{
    if !is_row_major(format) {
        return Err(StorageError::WrongShard);
    }
    let axes = relate(allocation, view, padded)?;
    let bytes: u64 = format.precision.bytes();
    let mut spans: Vec<ByteSpan> = Vec::new();
    if axes.len() == 0 {
        spans.push(ByteSpan { offset: 0, bytes: bytes as u32 });
        assert(spans@ =~= seq![ByteSpan { offset: 0, bytes: bytes as u32 }]);
        return Ok(spans);
    }
    append_rows(&axes, bytes, 0, 0, &mut spans)?;
    Ok(spans)
}

fn bytes_of(format: &TensorFormat, extents: &[ShardExtent]) -> (r: Result<u32, StorageError>)
    ensures
        r == dense_bytes(format@, extents@),
{
    if !is_row_major(format) {
        return Err(StorageError::WrongShard);
    }
    let mut elements: u64 = 1;
    let mut i: usize = 0;
    while i < extents.len()
        invariant
            i <= extents@.len(),
            elements <= 0xffff_ffff,
            elements_from(extents@, 0, 1) == elements_from(extents@, i as int, elements as int),
        decreases extents@.len() - i,
    {
        if extents[i].start > extents[i].physical_end {
            return Err(StorageError::InvalidView);
        }
        let width: u64 = (extents[i].physical_end - extents[i].start) as u64;
        assert(0 <= elements * width <= 0xffff_ffff * 0xffff_ffff) by (nonlinear_arith)
            requires
                0 <= elements <= 0xffff_ffff,
                0 <= width <= 0xffff_ffff,
        ;
        let product: u64 = elements * width;
        if product > 0xffff_ffff {
            return Err(StorageError::Overflow);
        }
        elements = product;
        i += 1;
    }
    let bytes: u64 = format.precision.bytes();
    assert(0 <= elements * bytes <= 0xffff_ffff * 4) by (nonlinear_arith)
        requires
            0 <= elements <= 0xffff_ffff,
            1 <= bytes <= 4,
    ;
    let total: u64 = elements * bytes;
    if total > 0xffff_ffff {
        return Err(StorageError::Overflow);
    }
    Ok(total as u32)
}

// ---------------------------------------------------------------- coverage

/// The furthest end of the spans up to `count` that hold the byte at `at`, or
/// `at` itself.
pub open spec fn covered_to(spans: Seq<ByteSpan>, at: int, count: int) -> int
    decreases count,
{
    if count <= 0 {
        at
    } else {
        let before = covered_to(spans, at, count - 1);
        let span = spans[count - 1];
        if span.offset <= at && span.offset + span.bytes > before {
            span.offset + span.bytes
        } else {
            before
        }
    }
}

/// The first start after `at` of the spans up to `count`, or `limit`.
pub open spec fn next_start(spans: Seq<ByteSpan>, at: int, limit: int, count: int) -> int
    decreases count,
{
    if count <= 0 {
        limit
    } else {
        let before = next_start(spans, at, limit, count - 1);
        let span = spans[count - 1];
        if at < span.offset < before {
            span.offset as int
        } else {
            before
        }
    }
}

/// `done` followed by the gaps between the spans from byte `at` on.
pub open spec fn gaps_from(spans: Seq<ByteSpan>, limit: u32, at: int, done: Seq<ByteSpan>) -> Seq<
    ByteSpan,
>
    decreases
            (if at < limit {
                limit - at
            } else {
                0
            }),
{
    if at >= limit {
        done
    } else {
        let end = covered_to(spans, at, spans.len() as int);
        let next = next_start(spans, at, limit as int, spans.len() as int);
        if end > at {
            gaps_from(spans, limit, end, done)
        } else if next > at {
            gaps_from(
                spans,
                limit,
                next,
                done.push(ByteSpan { offset: at as u32, bytes: (next - at) as u32 }),
            )
        } else {
            done
        }
    }
}

/// `done` followed by the bytes of the rectangles from `i` on.
pub open spec fn region_spans_from(
    format: FormatModel,
    allocation: Seq<ShardExtent>,
    regions: Seq<Seq<ShardExtent>>,
    padded: bool,
    i: int,
    done: Seq<ByteSpan>,
) -> Result<Seq<ByteSpan>, StorageError>
    decreases regions.len() - i,
{
    if i >= regions.len() {
        Ok(done)
    } else {
        match view_rows(format, allocation, regions[i], padded) {
            Err(e) => Err(e),
            Ok(spans) => region_spans_from(
                format,
                allocation,
                regions,
                padded,
                i + 1,
                done + spans,
            ),
        }
    }
}

/// The bytes of an allocation outside rectangles.
pub open spec fn uncovered(
    format: FormatModel,
    allocation: Seq<ShardExtent>,
    regions: Seq<Seq<ShardExtent>>,
    order: CopyOrder,
) -> Result<Seq<ByteSpan>, StorageError> {
    match dense_bytes(format, allocation) {
        Err(e) => Err(e),
        Ok(bytes) => match region_spans_from(
            format,
            allocation,
            regions,
            order != CopyOrder::Semantic,
            0,
            Seq::empty(),
        ) {
            Err(e) => Err(e),
            Ok(spans) => Ok(gaps_from(spans, bytes, 0, Seq::empty())),
        },
    }
}

fn covered_end(spans: &Vec<ByteSpan>, at: u64) -> (r: u64)
    requires
        at <= 0x1_ffff_ffff,
    ensures
        r == covered_to(spans@, at as int, spans@.len() as int),
        at <= r <= 0x1_ffff_ffff,
{
    let mut end: u64 = at;
    let mut i: usize = 0;
    while i < spans.len()
        invariant
            i <= spans@.len(),
            end == covered_to(spans@, at as int, i as int),
            at <= end <= 0x1_ffff_ffff,
        decreases spans@.len() - i,
    {
        let span: ByteSpan = spans[i];
        let span_end: u64 = span.offset as u64 + span.bytes as u64;
        if span.offset as u64 <= at && span_end > end {
            end = span_end;
        }
        i += 1;
    }
    end
}

fn following_start(spans: &Vec<ByteSpan>, at: u64, limit: u64) -> (r: u64)
    ensures
        r == next_start(spans@, at as int, limit as int, spans@.len() as int),
        r <= limit,
{
    let mut next: u64 = limit;
    let mut i: usize = 0;
    while i < spans.len()
        invariant
            i <= spans@.len(),
            next == next_start(spans@, at as int, limit as int, i as int),
            next <= limit,
        decreases spans@.len() - i,
    {
        let offset: u64 = spans[i].offset as u64;
        if at < offset && offset < next {
            next = offset;
        }
        i += 1;
    }
    next
}

fn gaps(spans: &Vec<ByteSpan>, limit: u32) -> (r: Vec<ByteSpan>)
    ensures
        r@ == gaps_from(spans@, limit, 0, Seq::empty()),
{
    let mut found: Vec<ByteSpan> = Vec::new();
    let mut at: u64 = 0;
    while at < limit as u64
        invariant
            at <= 0x1_ffff_ffff,
            gaps_from(spans@, limit, 0, Seq::empty()) == gaps_from(
                spans@,
                limit,
                at as int,
                found@,
            ),
        decreases 0x2_0000_0000 - at,
    {
        let end: u64 = covered_end(spans, at);
        if end > at {
            at = end;
        } else {
            let next: u64 = following_start(spans, at, limit as u64);
            if next <= at {
                return found;
            }
            found.push(ByteSpan { offset: at as u32, bytes: (next - at) as u32 });
            at = next;
        }
    }
    found
}

fn spans_of_regions(
    format: &TensorFormat,
    allocation: &[ShardExtent],
    regions: &Vec<Region>,
    padded: bool,
) -> (r: Result<Vec<ByteSpan>, StorageError>)
    ensures
        spans_are(
            r,
            region_spans_from(format@, allocation@, deep(regions@), padded, 0, Seq::empty()),
        ),
{
    broadcast use group_deep;

    let ghost model = deep(regions@);
    let mut spans: Vec<ByteSpan> = Vec::new();
    let mut i: usize = 0;
    while i < regions.len()
        invariant
            i <= regions@.len(),
            region_spans_from(format@, allocation@, model, padded, 0, Seq::empty())
                == region_spans_from(format@, allocation@, model, padded, i as int, spans@),
        decreases regions@.len() - i,
    {
        assert(model[i as int] == regions@[i as int]@);
        let mut more = rows_of(format, allocation, regions[i].extents.as_slice(), padded)?;
        spans.append(&mut more);
        i += 1;
    }
    Ok(spans)
}

// ---------------------------------------------------------------- destinations

/// The rectangles that copies write.
pub open spec fn destinations_of(mappings: Seq<MappingModel>) -> Seq<Seq<ShardExtent>> {
    Seq::new(mappings.len(), |i: int| mappings[i].destination)
}

/// All sources are stored in the order of the destination.
pub open spec fn orders_agree(order: ElementOrder, mappings: Seq<MappingModel>) -> bool {
    forall|i: int|
        0 <= i < mappings.len() ==> (#[trigger] mappings[i]).format.layout.order == order
}

/// How a destination is written.
pub open spec fn dense_geometry(
    format: FormatModel,
    allocation: Seq<ShardExtent>,
    mappings: Seq<MappingModel>,
    order: CopyOrder,
) -> Result<DestinationGeometry, StorageError> {
    match dense_bytes(format, allocation) {
        Err(e) => Err(e),
        Ok(bytes) => match region_spans_from(
            format,
            allocation,
            destinations_of(mappings),
            order != CopyOrder::Semantic,
            0,
            Seq::empty(),
        ) {
            Err(e) => Err(e),
            Ok(spans) => Ok(
                DestinationGeometry {
                    semantic: order == CopyOrder::Semantic,
                    destination_word_aligned: all_word_aligned(spans),
                    same_element_order: orders_agree(format.layout.order, mappings),
                    padding: gaps_from(spans, bytes, 0, Seq::empty()).len() > 0,
                    bytes,
                    fragments: if all_word_aligned(spans) {
                        Some(spans.len() as u64)
                    } else {
                        None
                    },
                },
            ),
        },
    }
}

fn do_orders_agree(order: ElementOrder, mappings: &Vec<CopyMapping>) -> (r: bool)
    ensures
        r == orders_agree(order, deep(mappings@)),
{
    broadcast use group_deep;

    let ghost model = deep(mappings@);
    let mut i: usize = 0;
    while i < mappings.len()
        invariant
            i <= mappings@.len(),
            forall|k: int| 0 <= k < i ==> (#[trigger] model[k]).format.layout.order == order,
        decreases mappings@.len() - i,
    {
        assert(model[i as int] == mappings@[i as int]@);
        if mappings[i].format.layout.order != order {
            return false;
        }
        i += 1;
    }
    true
}

fn written_by(mappings: &Vec<CopyMapping>) -> (r: Vec<Region>)
    ensures
        deep(r@) == destinations_of(deep(mappings@)),
{
    broadcast use group_deep;

    let mut regions: Vec<Region> = Vec::new();
    let mut i: usize = 0;
    while i < mappings.len()
        invariant
            i <= mappings@.len(),
            regions@.len() == i,
            forall|k: int|
                0 <= k < i ==> (#[trigger] regions@[k])@ == mappings@[k]@.destination,
        decreases mappings@.len() - i,
    {
        regions.push(
            Region { extents: crate::model::copy_all(mappings[i].destination.as_slice()) },
        );
        i += 1;
    }
    assert(deep(regions@) =~= destinations_of(deep(mappings@)));
    regions
}

// ---------------------------------------------------------------- tilings

/// A number rounded up to a multiple.
pub open spec fn rounded(value: int, multiple: int) -> int {
    if multiple <= 0 {
        value
    } else {
        div_ceil(value, multiple) * multiple
    }
}

/// The tiling of an axis, among those from `i` on.
pub open spec fn tiling_of(axes: Seq<AxisTiling>, rank: nat, axis: int, i: int) -> Option<AxisTiling>
    decreases axes.len() - i,
{
    if i >= axes.len() {
        None
    } else if axes[i].axis.spec_resolve(rank) == Some(axis) {
        Some(axes[i])
    } else {
        tiling_of(axes, rank, axis, i + 1)
    }
}

/// Every tiling names an axis and has partitions.
pub open spec fn tilings_fit(axes: Seq<AxisTiling>, rank: nat) -> bool {
    forall|i: int|
        0 <= i < axes.len() ==> (#[trigger] axes[i]).axis.spec_resolve(rank) is Some
            && axes[i].partitions > 0
}

/// Padded size of an axis.
pub open spec fn padded_size(size: u32, tiling: AxisTiling) -> int {
    rounded(size as int, tiling.padding_multiple as int)
}

/// Elements of one partition.
pub open spec fn chunk_size(size: u32, tiling: AxisTiling) -> int {
    rounded(
        div_ceil(padded_size(size, tiling), tiling.partitions as int),
        tiling.block_size as int,
    )
}

/// A position inside a padded axis.
pub open spec fn clamped(at: int, limit: int) -> u32 {
    (if at < limit {
        at
    } else {
        limit
    }) as u32
}

/// One partition of an axis.
pub open spec fn partition(size: u32, tiling: AxisTiling, k: int) -> (u32, u32, u32) {
    let padded = padded_size(size, tiling);
    let chunk = chunk_size(size, tiling);
    let start = clamped(k * chunk, padded);
    let end = clamped((k + 1) * chunk, padded);
    (start, max(start, min(size, end)), end)
}

/// The partitions of an axis.
pub open spec fn partitions(size: u32, tiling: Option<AxisTiling>) -> Seq<(u32, u32, u32)> {
    match tiling {
        None => seq![(0u32, size, size)],
        Some(tiling) => Seq::new(
            tiling.partitions as nat,
            |k: int| partition(size, tiling, k),
        ),
    }
}

/// The partitions of every axis.
pub open spec fn all_partitions(axes: Seq<AxisTiling>, shape: Seq<u32>) -> Seq<
    Seq<(u32, u32, u32)>,
> {
    Seq::new(shape.len(), |a: int| partitions(shape[a], tiling_of(axes, shape.len(), a, 0)))
}

/// The padded shape.
pub open spec fn padded_shape(axes: Seq<AxisTiling>, shape: Seq<u32>) -> Seq<u32> {
    Seq::new(
        shape.len(),
        |a: int|
            match tiling_of(axes, shape.len(), a, 0) {
                None => shape[a],
                Some(tiling) => padded_size(shape[a], tiling) as u32,
            },
    )
}

/// The padded shape is representable.
pub open spec fn shape_fits(axes: Seq<AxisTiling>, shape: Seq<u32>) -> bool {
    forall|a: int|
        0 <= a < shape.len() ==> match tiling_of(axes, shape.len(), a, 0) {
            None => true,
            Some(tiling) => padded_size(#[trigger] shape[a], tiling) <= u32::MAX,
        }
}

/// Which partition of an axis a tile holds: the tilings count the tiles, the
/// last one fastest.
pub open spec fn partition_index(axes: Seq<AxisTiling>, rank: nat, axis: int, tile: int, end: int) -> int
    decreases end,
{
    if end <= 0 {
        0
    } else if axes[end - 1].axis.spec_resolve(rank) == Some(axis) && tiling_of(axes, rank, axis, 0)
        == Some(axes[end - 1]) {
        tile % (axes[end - 1].partitions as int)
    } else {
        partition_index(axes, rank, axis, tile / (axes[end - 1].partitions as int), end - 1)
    }
}

/// The rectangle of a tile.
pub open spec fn tile_extents(axes: Seq<AxisTiling>, shape: Seq<u32>, tile: int) -> Seq<ShardExtent> {
    Seq::new(
        shape.len(),
        |a: int|
            {
                let bounds = all_partitions(axes, shape)[a][partition_index(
                    axes,
                    shape.len(),
                    a,
                    tile,
                    axes.len() as int,
                )];
                ShardExtent {
                    axis: a as u16,
                    start: bounds.0,
                    logical_end: bounds.1,
                    physical_end: bounds.2,
                }
            },
    )
}

/// A layout applied to a shape: one rectangle on every tile.
pub open spec fn dense_resolve(layout: LayoutModel, shape: Seq<u32>) -> Result<
    ResolvedModel,
    LayoutError,
> {
    if !tilings_fit(layout.axes, shape.len()) {
        Err(LayoutError::InvalidTiling)
    } else if shape.len() > u16::MAX {
        Err(LayoutError::RankMismatch)
    } else if !shape_fits(layout.axes, shape) {
        Err(LayoutError::Overflow)
    } else {
        Ok(
            ResolvedModel {
                padded_shape: padded_shape(layout.axes, shape),
                shards: Seq::new(
                    layout.tile_count as nat,
                    |t: int| (t as u16, tile_extents(layout.axes, shape, t)),
                ),
                bounds: all_partitions(layout.axes, shape),
            },
        )
    }
}

proof fn lemma_partition_index_in_range(
    axes: Seq<AxisTiling>,
    rank: nat,
    axis: int,
    tile: int,
    end: int,
)
    requires
        tilings_fit(axes, rank),
        0 <= end <= axes.len(),
        tile >= 0,
    ensures
        match tiling_of(axes, rank, axis, 0) {
            Some(tiling) => 0 <= partition_index(axes, rank, axis, tile, end) < tiling.partitions,
            None => partition_index(axes, rank, axis, tile, end) == 0,
        },
    decreases end,
{
    lemma_tiling_is_listed(axes, rank, axis, 0);
    if end > 0 {
        let p = axes[end - 1].partitions as int;
        assert(p > 0);
        assert(tile / p >= 0) by (nonlinear_arith)
            requires
                tile >= 0,
                p > 0,
        ;
        lemma_partition_index_in_range(axes, rank, axis, tile / p, end - 1);
    }
}

proof fn lemma_tiling_is_listed(axes: Seq<AxisTiling>, rank: nat, axis: int, i: int)
    requires
        0 <= i <= axes.len(),
    ensures
        tiling_of(axes, rank, axis, i) matches Some(tiling) ==> exists|k: int|
            i <= k < axes.len() && #[trigger] axes[k] == tiling,
    decreases axes.len() - i,
{
    if i < axes.len() {
        lemma_tiling_is_listed(axes, rank, axis, i + 1);
    }
}

fn round_up(value: u64, multiple: u64) -> (r: u64)
    requires
        value <= 0x1_ffff_ffff,
        multiple <= 0xffff_ffff,
    ensures
        r == rounded(value as int, multiple as int),
        value <= r,
        r <= value + multiple,
{
    if multiple == 0 {
        return value;
    }
    let count: u64 = div_ceil_u64(value, multiple);
    proof {
        let v = value as int;
        let m = multiple as int;
        vstd::arithmetic::div_mod::lemma_fundamental_div_mod(v, m);
        assert(0 <= v % m < m);
        assert((v / m) * m == m * (v / m)) by (nonlinear_arith);
        assert((v / m + 1) * m == m * (v / m) + m) by (nonlinear_arith);
    }
    count * multiple
}

fn find_tiling(axes: &Vec<AxisTiling>, rank: usize, axis: usize) -> (r: Option<AxisTiling>)
    ensures
        r == tiling_of(axes@, rank as nat, axis as int, 0),
{
    let mut i: usize = 0;
    while i < axes.len()
        invariant
            i <= axes@.len(),
            tiling_of(axes@, rank as nat, axis as int, 0) == tiling_of(
                axes@,
                rank as nat,
                axis as int,
                i as int,
            ),
        decreases axes@.len() - i,
    {
        match axes[i].axis.resolve(rank) {
            Some(found) => {
                if found == axis {
                    return Some(axes[i]);
                }
            },
            None => {},
        }
        i += 1;
    }
    None
}

fn clamp_to(at: u64, limit: u64) -> (r: u32)
    requires
        limit <= 0xffff_ffff,
    ensures
        r == clamped(at as int, limit as int),
        r <= limit,
{
    if at < limit {
        at as u32
    } else {
        limit as u32
    }
}

fn padded_of(size: u32, tiling: AxisTiling) -> (r: u64)
    ensures
        r == padded_size(size, tiling),
        r <= 0x1_ffff_ffff,
{
    round_up(size as u64, tiling.padding_multiple as u64)
}

fn divide_axis(size: u32, tiling: Option<AxisTiling>) -> (r: Vec<(u32, u32, u32)>)
    requires
        tiling matches Some(tiling) ==> tiling.partitions > 0 && padded_size(size, tiling)
            <= u32::MAX,
    ensures
        r@ == partitions(size, tiling),
{
    let mut bounds: Vec<(u32, u32, u32)> = Vec::new();
    match tiling {
        None => {
            bounds.push((0, size, size));
            assert(bounds@ =~= partitions(size, tiling));
        },
        Some(tiling) => {
            let padded: u64 = padded_of(size, tiling);
            let share: u64 = div_ceil_u64(padded, tiling.partitions as u64);
            assert(share <= 0x1_0000_0000) by {
                let q = padded as int / tiling.partitions as int;
                assert(0 <= q <= padded) by (nonlinear_arith)
                    requires
                        q == padded as int / tiling.partitions as int,
                        tiling.partitions > 0,
                        padded >= 0,
                ;
            }
            let chunk: u64 = round_up(share, tiling.block_size as u64);
            assert(chunk <= 0x2_0000_0000);
            let mut k: u16 = 0;
            while k < tiling.partitions
                invariant
                    k <= tiling.partitions,
                    bounds@.len() == k,
                    forall|j: int|
                        0 <= j < k ==> (#[trigger] bounds@[j]) == partition(size, tiling, j),
                decreases tiling.partitions - k,
            {
                assert(0 <= k * chunk <= 0xffff * 0x2_0000_0000) by (nonlinear_arith)
                    requires
                        0 <= k <= 0xffff,
                        0 <= chunk <= 0x2_0000_0000,
                ;
                assert((k + 1) * chunk == k * chunk + chunk) by (nonlinear_arith);
                let start: u32 = clamp_to(k as u64 * chunk, padded);
                let end: u32 = clamp_to(k as u64 * chunk + chunk, padded);
                bounds.push((start, max_u32(start, min_u32(size, end)), end));
                k += 1;
            }
            assert(bounds@ =~= partitions(size, Some(tiling)));
        },
    }
    bounds
}

fn find_partition(axes: &Vec<AxisTiling>, rank: usize, axis: usize, tile: u16) -> (r: u16)
    requires
        tilings_fit(axes@, rank as nat),
    ensures
        r == partition_index(axes@, rank as nat, axis as int, tile as int, axes@.len() as int),
{
    let tiling = find_tiling(axes, rank, axis);
    let mut at: u16 = tile;
    let mut end: usize = axes.len();
    while end > 0
        invariant
            end <= axes@.len(),
            partition_index(axes@, rank as nat, axis as int, tile as int, axes@.len() as int)
                == partition_index(axes@, rank as nat, axis as int, at as int, end as int),
        decreases end,
    {
        let last: AxisTiling = axes[end - 1];
        assert(axes@[end - 1].partitions > 0);
        let here = match (last.axis.resolve(rank), tiling) {
            (Some(found), Some(tiling)) => found == axis && tiling == last,
            _ => false,
        };
        if here {
            return at % last.partitions;
        }
        at = at / last.partitions;
        end -= 1;
    }
    0
}

fn resolve_dense(layout: &Layout, shape: &[u32]) -> (r: Result<ResolvedLayout, LayoutError>)
    ensures
        match r {
            Ok(resolved) => dense_resolve(layout@, shape@) == Ok::<ResolvedModel, LayoutError>(
                resolved@,
            ),
            Err(e) => dense_resolve(layout@, shape@) == Err::<ResolvedModel, LayoutError>(e),
        },
{
    broadcast use group_deep;

    let axes = &layout.tiling.axes;
    let rank = shape.len();
    let mut i: usize = 0;
    while i < axes.len()
        invariant
            i <= axes@.len(),
            forall|k: int|
                0 <= k < i ==> (#[trigger] axes@[k]).axis.spec_resolve(rank as nat) is Some
                    && axes@[k].partitions > 0,
        decreases axes@.len() - i,
    {
        if axes[i].axis.resolve(rank).is_none() || axes[i].partitions == 0 {
            assert(!(axes@[i as int].axis.spec_resolve(rank as nat) is Some
                && axes@[i as int].partitions > 0));
            return Err(LayoutError::InvalidTiling);
        }
        i += 1;
    }
    if rank > 0xffff {
        return Err(LayoutError::RankMismatch);
    }
    let mut padded: Vec<u32> = Vec::new();
    let mut a: usize = 0;
    while a < rank
        invariant
            a <= rank,
            padded@.len() == a,
            forall|k: int| 0 <= k < a ==> (#[trigger] padded@[k]) == padded_shape(axes@, shape@)[k],
            forall|k: int|
                0 <= k < a ==> match tiling_of(axes@, rank as nat, k, 0) {
                    None => true,
                    Some(tiling) => padded_size(#[trigger] shape@[k], tiling) <= u32::MAX,
                },
        decreases rank - a,
    {
        match find_tiling(axes, rank, a) {
            None => {
                padded.push(shape[a]);
            },
            Some(tiling) => {
                let size: u64 = padded_of(shape[a], tiling);
                if size > 0xffff_ffff {
                    assert(padded_size(shape@[a as int], tiling) > u32::MAX);
                    return Err(LayoutError::Overflow);
                }
                padded.push(size as u32);
            },
        }
        a += 1;
    }
    assert(padded@ =~= padded_shape(axes@, shape@));
    let mut bounds: Vec<AxisBounds> = Vec::new();
    let mut a: usize = 0;
    while a < rank
        invariant
            a <= rank,
            bounds@.len() == a,
            forall|k: int|
                0 <= k < a ==> (#[trigger] bounds@[k])@ == all_partitions(axes@, shape@)[k],
        decreases rank - a,
    {
        let tiling = find_tiling(axes, rank, a);
        proof {
            lemma_tiling_is_listed(axes@, rank as nat, a as int, 0);
            assert(shape@[a as int] == shape@[a as int]);
        }
        bounds.push(AxisBounds { partitions: divide_axis(shape[a], tiling) });
        a += 1;
    }
    assert(deep(bounds@) =~= all_partitions(axes@, shape@));
    let mut shards: Vec<ResolvedShard> = Vec::new();
    let mut t: u16 = 0;
    while t < layout.tiling.tile_count
        invariant
            t <= layout.tiling.tile_count,
            shards@.len() == t,
            forall|k: int|
                0 <= k < t ==> (#[trigger] shards@[k])@ == (
                    k as u16,
                    tile_extents(axes@, shape@, k),
                ),
        decreases layout.tiling.tile_count - t,
    {
        let mut extents: Vec<ShardExtent> = Vec::new();
        let mut a: usize = 0;
        while a < rank
            invariant
                a <= rank,
                extents@.len() == a,
                forall|k: int|
                    0 <= k < a ==> (#[trigger] extents@[k]) == tile_extents(
                        axes@,
                        shape@,
                        t as int,
                    )[k],
            decreases rank - a,
        {
            let at: u16 = find_partition(axes, rank, a, t);
            proof {
                lemma_partition_index_in_range(
                    axes@,
                    rank as nat,
                    a as int,
                    t as int,
                    axes@.len() as int,
                );
                assert(bounds@[a as int]@ == all_partitions(axes@, shape@)[a as int]);
            }
            let (start, logical_end, physical_end) = bounds[a].partitions[at as usize];
            extents.push(ShardExtent { axis: a as u16, start, logical_end, physical_end });
            a += 1;
        }
        assert(extents@ =~= tile_extents(axes@, shape@, t as int));
        shards.push(ResolvedShard { tile: t, extents });
        t += 1;
    }
    assert(deep(shards@) =~= dense_resolve(layout@, shape@)->Ok_0.shards);
    Ok(ResolvedLayout { padded_shape: padded, shards, bounds })
}

// ---------------------------------------------------------------- device

/// Tiling of one axis into equal parts.
pub open spec fn equal_parts(axis: TensorAxis, partitions: u16, block: u32) -> AxisTiling {
    AxisTiling {
        axis,
        partitions,
        block_size: block,
        padding_multiple: 1,
        shard_padding_multiple: 1,
    }
}

/// Layout of partial results: rows and columns are divided over the tiles.
pub open spec fn grid_layout(grid: PartialGrid) -> LayoutModel {
    LayoutModel {
        order: ElementOrder::RowMajor,
        tile_count: grid.tiles,
        axes: seq![
            equal_parts(TensorAxis::FromEnd(2), grid.row_partitions, 1),
            equal_parts(TensorAxis::FromEnd(1), grid.column_partitions, grid.column_block),
        ],
        memory_class: MemoryClass::Ipu21Standard,
    }
}

fn divide_equally(axis: TensorAxis, partitions: u16, block: u32) -> (r: AxisTiling)
    ensures
        r == equal_parts(axis, partitions, block),
{
    AxisTiling {
        axis,
        partitions,
        block_size: block,
        padding_multiple: 1,
        shard_padding_multiple: 1,
    }
}

impl Target for Linear {
    open spec fn spec_costs(&self) -> TargetCosts {
        self.costs
    }

    fn costs(&self) -> (r: TargetCosts) {
        self.costs
    }

    open spec fn spec_storage_bytes(&self, format: FormatModel, extents: Seq<ShardExtent>) -> Result<
        u32,
        StorageError,
    > {
        dense_bytes(format, extents)
    }

    fn storage_bytes(&self, format: &TensorFormat, extents: &[ShardExtent]) -> (r: Result<
        u32,
        StorageError,
    >) {
        bytes_of(format, extents)
    }

    open spec fn spec_physical_spans(
        &self,
        format: FormatModel,
        allocation: Seq<ShardExtent>,
        view: Seq<ShardExtent>,
    ) -> Result<Seq<ByteSpan>, StorageError> {
        view_rows(format, allocation, view, true)
    }

    fn physical_byte_spans(
        &self,
        format: &TensorFormat,
        allocation: &[ShardExtent],
        view: &[ShardExtent],
    ) -> (r: Result<Vec<ByteSpan>, StorageError>) {
        rows_of(format, allocation, view, true)
    }

    open spec fn spec_logical_spans(
        &self,
        format: FormatModel,
        allocation: Seq<ShardExtent>,
        view: Seq<ShardExtent>,
    ) -> Result<Seq<ByteSpan>, StorageError> {
        view_rows(format, allocation, view, false)
    }

    fn logical_byte_spans(
        &self,
        format: &TensorFormat,
        allocation: &[ShardExtent],
        view: &[ShardExtent],
    ) -> (r: Result<Vec<ByteSpan>, StorageError>) {
        rows_of(format, allocation, view, false)
    }

    open spec fn spec_exchanges_panels(&self, from: FormatModel, to: FormatModel) -> bool {
        false
    }

    fn supports_f16_micro_panel_exchange(&self, from: &TensorFormat, to: &TensorFormat) -> (r: bool) {
        false
    }

    open spec fn spec_pack_cycles(&self, tensor_type: TypeModel, elements: u64) -> u64 {
        sat_add(self.costs.kernel_launch_cycles, elements)
    }

    fn row_major_pack_cycles(&self, tensor_type: &TensorType, elements: u64) -> (r: u64) {
        self.costs.kernel_launch_cycles.saturating_add(elements)
    }

    open spec fn spec_resolve(&self, layout: LayoutModel, shape: Seq<u32>) -> Result<
        ResolvedModel,
        LayoutError,
    > {
        dense_resolve(layout, shape)
    }

    fn resolve(&self, layout: &Layout, shape: &[u32]) -> (r: Result<ResolvedLayout, LayoutError>) {
        resolve_dense(layout, shape)
    }

    open spec fn spec_partial_layout(&self, grid: PartialGrid) -> LayoutModel {
        grid_layout(grid)
    }

    fn partial_layout(&self, grid: PartialGrid) -> (r: Layout) {
        let mut axes: Vec<AxisTiling> = Vec::new();
        axes.push(divide_equally(TensorAxis::FromEnd(2), grid.row_partitions, 1));
        axes.push(
            divide_equally(TensorAxis::FromEnd(1), grid.column_partitions, grid.column_block),
        );
        assert(axes@ =~= grid_layout(grid).axes);
        Layout {
            order: ElementOrder::RowMajor,
            tiling: TensorTiling { tile_count: grid.tiles, axes },
            memory_class: MemoryClass::Ipu21Standard,
        }
    }
}

impl BlockTarget for Linear {
    open spec fn spec_panel_spans(
        &self,
        format: FormatModel,
        allocation: Seq<ShardExtent>,
        view: Seq<ShardExtent>,
    ) -> Result<Seq<ByteSpan>, StorageError> {
        view_rows(format, allocation, view, true)
    }

    fn panel_byte_spans(
        &self,
        format: &TensorFormat,
        allocation: &[ShardExtent],
        view: &[ShardExtent],
    ) -> (r: Result<Vec<ByteSpan>, StorageError>) {
        rows_of(format, allocation, view, true)
    }

    open spec fn spec_panel_shape(&self, format: FormatModel) -> Option<(u32, u32)> {
        None
    }

    fn exchange_panel_shape(&self, format: &TensorFormat) -> (r: Option<(u32, u32)>) {
        None
    }

    open spec fn spec_exchanges_micro_panels(&self, from: FormatModel, to: FormatModel) -> bool {
        false
    }

    fn supports_micro_panel_exchange(&self, from: &TensorFormat, to: &TensorFormat) -> (r: bool) {
        false
    }

    open spec fn spec_output_group(&self, order: ElementOrder) -> Option<u32> {
        Some(AMP_COLUMN_MICRO)
    }

    fn gemm_output_group(&self, order: ElementOrder) -> (r: Option<u32>) {
        Some(AMP_COLUMN_MICRO)
    }

    open spec fn spec_column_grain(&self, order: ElementOrder, precision: Precision) -> Option<u32> {
        None
    }

    fn retained_linear_column_grain(&self, order: ElementOrder, precision: Precision) -> (r: Option<
        u32,
    >) {
        None
    }

    open spec fn spec_uncovered(
        &self,
        format: FormatModel,
        allocation: Seq<ShardExtent>,
        regions: Seq<Seq<ShardExtent>>,
        order: CopyOrder,
    ) -> Result<Seq<ByteSpan>, StorageError> {
        uncovered(format, allocation, regions, order)
    }

    fn uncovered_bytes(
        &self,
        format: &TensorFormat,
        allocation: &[ShardExtent],
        regions: &Vec<Region>,
        order: CopyOrder,
    ) -> (r: Result<Vec<ByteSpan>, StorageError>) {
        let bytes: u32 = bytes_of(format, allocation)?;
        let spans = spans_of_regions(format, allocation, regions, order != CopyOrder::Semantic)?;
        Ok(gaps(&spans, bytes))
    }

    open spec fn spec_geometry(
        &self,
        format: FormatModel,
        allocation: Seq<ShardExtent>,
        mappings: Seq<MappingModel>,
        order: CopyOrder,
    ) -> Result<DestinationGeometry, StorageError> {
        dense_geometry(format, allocation, mappings, order)
    }

    fn destination_geometry(
        &self,
        format: &TensorFormat,
        allocation: &[ShardExtent],
        mappings: &Vec<CopyMapping>,
        order: CopyOrder,
    ) -> (r: Result<DestinationGeometry, StorageError>) {
        let bytes: u32 = bytes_of(format, allocation)?;
        let regions = written_by(mappings);
        let spans = spans_of_regions(format, allocation, &regions, order != CopyOrder::Semantic)?;
        let aligned = are_word_aligned(&spans);
        Ok(
            DestinationGeometry {
                semantic: order == CopyOrder::Semantic,
                destination_word_aligned: aligned,
                same_element_order: do_orders_agree(format.layout.order, mappings),
                padding: gaps(&spans, bytes).len() > 0,
                bytes,
                fragments: if aligned {
                    Some(spans.len() as u64)
                } else {
                    None
                },
            },
        )
    }

    open spec fn spec_exchange_cycles(&self, bytes: u64, fragments: u64) -> u64 {
        sat_add(
            bytes / 4,
            sat_mul(fragments, self.costs.logical_fragment_cycles),
        )
    }

    fn exchange_work_cycles(&self, bytes: u64, fragments: u64) -> (r: u64) {
        (bytes / 4).saturating_add(
            saturating_mul(fragments, self.costs.logical_fragment_cycles),
        )
    }

    open spec fn spec_rearrange_cycles(&self, format: FormatModel, extents: Seq<ShardExtent>) -> u64 {
        match dense_bytes(format, extents) {
            Ok(bytes) => sat_add(self.costs.kernel_launch_cycles, bytes as u64),
            Err(_) => u64::MAX,
        }
    }

    fn rearrange_cycles(&self, format: &TensorFormat, extents: &[ShardExtent]) -> (r: u64) {
        match bytes_of(format, extents) {
            Ok(bytes) => self.costs.kernel_launch_cycles.saturating_add(bytes as u64),
            Err(_) => u64::MAX,
        }
    }

    open spec fn spec_cast_prefix_bytes(&self) -> u32 {
        CAST_PREFIX_BYTES
    }

    fn cast_prefix_bytes(&self) -> (r: u32) {
        CAST_PREFIX_BYTES
    }

    open spec fn spec_cast_chunks(&self, order: ElementOrder, dimensions: Seq<u32>) -> Option<
        (usize, Seq<(u32, u32)>),
    > {
        if order != ElementOrder::RowMajor || dimensions.len() == 0 {
            None
        } else {
            Some((0usize, seq![(0u32, dimensions[0])]))
        }
    }

    fn cast_chunks(&self, order: ElementOrder, dimensions: &[u32]) -> (r: Option<
        (usize, Vec<(u32, u32)>),
    >) {
        let row_major = match order {
            ElementOrder::RowMajor => true,
            _ => false,
        };
        if !row_major || dimensions.len() == 0 {
            return None;
        }
        let mut ranges: Vec<(u32, u32)> = Vec::new();
        ranges.push((0, dimensions[0]));
        assert(ranges@ =~= seq![(0u32, dimensions@[0])]);
        Some((0, ranges))
    }

    proof fn spans_are_relative(&self, a: StoredView, b: StoredView) {
        lemma_rows_are_relative(a, b, true);
        lemma_rows_are_relative(a, b, false);
    }

    proof fn geometry_ignores_ownership(
        &self,
        format: FormatModel,
        other_format: FormatModel,
        allocation: Seq<ShardExtent>,
        mappings: Seq<MappingModel>,
        other_mappings: Seq<MappingModel>,
        order: CopyOrder,
    ) {
        assert(destinations_of(mappings) =~= destinations_of(other_mappings));
        lemma_regions_ignore_ownership(
            format,
            other_format,
            allocation,
            destinations_of(mappings),
            order != CopyOrder::Semantic,
            0,
            Seq::empty(),
        );
        assert(orders_agree(format.layout.order, mappings) == orders_agree(
            other_format.layout.order,
            other_mappings,
        )) by {
            if orders_agree(format.layout.order, mappings) {
                assert forall|i: int| 0 <= i < other_mappings.len() implies (
                #[trigger] other_mappings[i]).format.layout.order == other_format.layout.order by {
                    assert(mappings[i].format.layout.order == format.layout.order);
                }
            }
            if orders_agree(other_format.layout.order, other_mappings) {
                assert forall|i: int| 0 <= i < mappings.len() implies (
                #[trigger] mappings[i]).format.layout.order == format.layout.order by {
                    assert(other_mappings[i].format.layout.order == other_format.layout.order);
                }
            }
        }
    }
}

proof fn lemma_rows_are_relative(a: StoredView, b: StoredView, padded: bool)
    requires
        same_geometry(a, b),
    ensures
        view_rows(a.format, a.allocation, a.view, padded) == view_rows(
            b.format,
            b.allocation,
            b.view,
            padded,
        ),
{
    let x = relative_view(a.allocation, a.view, padded);
    let y = relative_view(b.allocation, b.view, padded);
    assert(x is Ok) by {
        assert forall|i: int| 0 <= i < a.view.len() implies axis_fits(
            a.allocation[i],
            #[trigger] a.view[i],
        ) by {}
    }
    assert(y is Ok) by {
        assert forall|i: int| 0 <= i < b.view.len() implies axis_fits(
            b.allocation[i],
            #[trigger] b.view[i],
        ) by {}
    }
    assert(x->Ok_0 =~= y->Ok_0) by {
        assert forall|i: int| 0 <= i < a.view.len() implies #[trigger] x->Ok_0[i] == y->Ok_0[i] by {
            assert(same_axis(a.allocation[i], a.view[i], b.allocation[i], b.view[i]));
        }
    }
}

proof fn lemma_regions_ignore_ownership(
    format: FormatModel,
    other_format: FormatModel,
    allocation: Seq<ShardExtent>,
    regions: Seq<Seq<ShardExtent>>,
    padded: bool,
    i: int,
    done: Seq<ByteSpan>,
)
    requires
        same_elements(format, other_format),
    ensures
        region_spans_from(format, allocation, regions, padded, i, done) == region_spans_from(
            other_format,
            allocation,
            regions,
            padded,
            i,
            done,
        ),
    decreases regions.len() - i,
{
    if i < regions.len() {
        if let Ok(spans) = view_rows(format, allocation, regions[i], padded) {
            lemma_regions_ignore_ownership(
                format,
                other_format,
                allocation,
                regions,
                padded,
                i + 1,
                done + spans,
            );
        }
    }
}

} // verus!
