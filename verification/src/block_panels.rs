//! Panels of blocks: which mapped views can be exchanged panel by panel, and how
//! the others are divided.

use crate::blocks::{
    block_of, block_spans, BlockTarget, CopyOrder, ExpansionError, ExpansionResult,
    TileGraphBuilder,
};
use crate::extents::{
    aligned_pieces, aligned_ranges, matrix_pieces_from, max, max_u32, min, min_u32, replace_matrix,
    row_pieces_from,
};
use crate::fragments::{all_word_aligned, are_word_aligned, sum_bytes, total_bytes};
use crate::low::{LowShard, ShardModel, ShardView, ViewModel};
use crate::model::{Model, copy_all, deep, group_deep};
use crate::tensor::ShardExtent;
use vstd::prelude::*;

verus! {

/// A source with its destination.
pub type Mapping = (ViewModel, ViewModel);

// ---------------------------------------------------------------- padding

/// Rows that a panel still holds after the last row of a range.
pub open spec fn rows_left(rows: ShardExtent, allocation: ShardExtent, panel: u32) -> int {
    (panel - (rows.logical_end - allocation.start) % (panel as int)) % (panel as int)
}

/// The rows are the last of their tensor, and lie inside the allocation.
pub open spec fn is_last(rows: ShardExtent, allocation: ShardExtent, height: u32) -> bool {
    rows.logical_end == height && allocation.start <= rows.logical_end <= allocation.physical_end
}

/// Rows of padding that both sides hold in their last panels.
pub open spec fn shared_row_padding(
    source: ShardExtent,
    source_allocation: ShardExtent,
    source_panel: u32,
    destination: ShardExtent,
    destination_allocation: ShardExtent,
    destination_panel: u32,
) -> u32 {
    min(
        min(
            rows_left(source, source_allocation, source_panel) as u32,
            rows_left(destination, destination_allocation, destination_panel) as u32,
        ),
        min(
            (source_allocation.physical_end - source.logical_end) as u32,
            (destination_allocation.physical_end - destination.logical_end) as u32,
        ),
    )
}

/// The axis of the rows.
pub open spec fn row_axis(extents: Seq<ShardExtent>) -> int {
    extents.len() - 2
}

/// Both views reach the last row of their tensors.
pub open spec fn reach_last_rows(
    source_block: ShardModel,
    source: ViewModel,
    destination_block: ShardModel,
    destination: ViewModel,
) -> bool {
    let a = row_axis(source.extents);
    let b = row_axis(destination.extents);
    &&& a < source_block.tensor_type.shape.len() && a < source_block.extents.len()
    &&& b < destination_block.tensor_type.shape.len() && b < destination_block.extents.len()
    &&& is_last(source.extents[a], source_block.extents[a], source_block.tensor_type.shape[a])
    &&& is_last(
        destination.extents[b],
        destination_block.extents[b],
        destination_block.tensor_type.shape[b],
    )
}

/// A view with at least `padding` rows after its last one.
pub open spec fn with_row_padding(view: ViewModel, padding: u32) -> ViewModel {
    let row = row_axis(view.extents);
    ViewModel {
        extents: view.extents.update(
            row,
            ShardExtent {
                physical_end: max(
                    view.extents[row].physical_end,
                    (view.extents[row].logical_end + padding) as u32,
                ),
                ..view.extents[row]
            },
        ),
        ..view
    }
}

/// Two views that both reach the last row of their tensors take along the
/// padding that both hold, so that they end with whole panels where they can.
pub open spec fn with_panel_padding<M: BlockTarget>(
    target: &M,
    source_block: ShardModel,
    source: ViewModel,
    destination_block: ShardModel,
    destination: ViewModel,
) -> Mapping {
    if source.extents.len() < 2 || destination.extents.len() < 2 || !reach_last_rows(
        source_block,
        source,
        destination_block,
        destination,
    ) {
        (source, destination)
    } else {
        match (
            target.spec_panel_shape(source_block.tensor_type.format),
            target.spec_panel_shape(destination_block.tensor_type.format),
        ) {
            (Some(source_panel), Some(destination_panel)) => {
                let a = row_axis(source.extents);
                let b = row_axis(destination.extents);
                let padding = shared_row_padding(
                    source.extents[a],
                    source_block.extents[a],
                    source_panel.0,
                    destination.extents[b],
                    destination_block.extents[b],
                    destination_panel.0,
                );
                (with_row_padding(source, padding), with_row_padding(destination, padding))
            },
            _ => (source, destination),
        }
    }
}

/// `done` followed by the mappings from `i` on with their shared padding.
pub open spec fn padded_mappings_from<M: BlockTarget>(
    target: &M,
    shards: Seq<ShardModel>,
    mappings: Seq<Mapping>,
    i: int,
    done: Seq<Mapping>,
) -> Result<Seq<Mapping>, ExpansionError>
    decreases mappings.len() - i,
{
    if i >= mappings.len() {
        Ok(done)
    } else {
        match block_of(shards, mappings[i].0.shard) {
            Err(e) => Err(e),
            Ok(a) => match block_of(shards, mappings[i].1.shard) {
                Err(e) => Err(e),
                Ok(b) => padded_mappings_from(
                    target,
                    shards,
                    mappings,
                    i + 1,
                    done.push(with_panel_padding(target, a, mappings[i].0, b, mappings[i].1)),
                ),
            },
        }
    }
}

// ---------------------------------------------------------------- whole panels

/// The bytes of a view panel by panel are whole words.
pub open spec fn has_word_panels<M: BlockTarget>(target: &M, block: ShardModel, view: ViewModel) -> bool {
    match target.spec_panel_spans(block.tensor_type.format, block.extents, view.extents) {
        Ok(spans) => all_word_aligned(spans),
        Err(_) => false,
    }
}

/// Two ranges of one width, with and without padding.
pub open spec fn same_widths(a: ShardExtent, b: ShardExtent) -> bool {
    a.physical_end - a.start == b.physical_end - b.start && a.logical_end - a.start
        == b.logical_end - b.start
}

/// A mapping that can go panel by panel.
pub open spec fn is_regular<M: BlockTarget>(target: &M, shards: Seq<ShardModel>, mapping: Mapping) -> bool {
    let (source, destination) = mapping;
    let a = shards[source.shard.0 as int];
    let b = shards[destination.shard.0 as int];
    let m = source.extents.len();
    let n = destination.extents.len();
    &&& source.shard.0 < shards.len()
    &&& destination.shard.0 < shards.len()
    &&& m >= 2
    &&& n >= 2
    &&& target.spec_exchanges_micro_panels(a.tensor_type.format, b.tensor_type.format)
    &&& same_widths(source.extents[m - 2], destination.extents[n - 2])
    &&& same_widths(source.extents[m - 1], destination.extents[n - 1])
    &&& has_word_panels(target, a, source)
    &&& has_word_panels(target, b, destination)
}

/// All mappings can go panel by panel.
pub open spec fn all_regular<M: BlockTarget>(
    target: &M,
    shards: Seq<ShardModel>,
    mappings: Seq<Mapping>,
) -> bool {
    &&& mappings.len() > 0
    &&& forall|i: int|
        0 <= i < mappings.len() ==> is_regular(target, shards, #[trigger] mappings[i])
}

// ---------------------------------------------------------------- pieces

/// `acc` times the useful elements of the leading axes from `i` on.
pub open spec fn matrices_from(extents: Seq<ShardExtent>, i: int, acc: int) -> Option<int>
    decreases extents.len() - i,
{
    if i >= extents.len() - 2 {
        Some(acc)
    } else if extents[i].logical_end < extents[i].start || acc * (extents[i].logical_end
        - extents[i].start) > u32::MAX {
        None
    } else {
        matrices_from(extents, i + 1, acc * (extents[i].logical_end - extents[i].start))
    }
}

/// Number of matrices of a rectangle.
pub open spec fn matrix_count_of(extents: Seq<ShardExtent>) -> Option<int> {
    matrices_from(extents, 0, 1)
}

/// The rectangle with its leading axes below `end` restricted to the matrix with
/// the given number, the last axis varying fastest.
pub open spec fn nth_matrix(extents: Seq<ShardExtent>, end: int, index: int) -> Seq<ShardExtent>
    decreases end,
{
    if end <= 0 {
        extents
    } else {
        let extent = extents[end - 1];
        let width = extent.logical_end - extent.start;
        let start = (extent.start + index % width) as u32;
        nth_matrix(
            extents.update(
                end - 1,
                ShardExtent {
                    axis: extent.axis,
                    start,
                    logical_end: (start + 1) as u32,
                    physical_end: (start + 1) as u32,
                },
            ),
            end - 1,
            index / width,
        )
    }
}

/// One matrix of a view.
pub open spec fn matrix_of(view: ViewModel, index: int) -> ViewModel {
    ViewModel { extents: nth_matrix(view.extents, view.extents.len() - 2, index), ..view }
}

/// `done` followed by the pieces of the matrices from `k` on.
pub open spec fn batch_pieces_from(
    source: ViewModel,
    destination: ViewModel,
    rows: Seq<(ShardExtent, ShardExtent)>,
    columns: Seq<(ShardExtent, ShardExtent)>,
    count: int,
    k: int,
    done: Seq<Mapping>,
) -> Seq<Mapping>
    decreases count - k,
{
    if k >= count {
        done
    } else {
        batch_pieces_from(
            source,
            destination,
            rows,
            columns,
            count,
            k + 1,
            matrix_pieces_from(
                matrix_of(source, k),
                matrix_of(destination, k),
                rows,
                columns,
                0,
                done,
            ),
        )
    }
}

/// Two corresponding views divided at the panel boundaries of both blocks,
/// matrix by matrix.
pub open spec fn divided_mapping<M: BlockTarget>(
    target: &M,
    source_block: ShardModel,
    source: ViewModel,
    destination_block: ShardModel,
    destination: ViewModel,
) -> Result<Seq<Mapping>, ExpansionError> {
    let m = source.extents.len() as int;
    let n = destination.extents.len() as int;
    if m < 2 || n < 2 || source_block.extents.len() != m || destination_block.extents.len() != n
        || matrix_count_of(source.extents) is None || matrix_count_of(source.extents)
        != matrix_count_of(destination.extents) {
        Err(ExpansionError::InvalidOperatorPlan)
    } else {
        let (a, b) = with_panel_padding(
            target,
            source_block,
            source,
            destination_block,
            destination,
        );
        match (
            target.spec_panel_shape(source_block.tensor_type.format),
            target.spec_panel_shape(destination_block.tensor_type.format),
        ) {
            (Some(source_panel), Some(destination_panel)) => match (
                aligned_pieces(
                    a.extents[m - 2],
                    source_block.extents[m - 2].start,
                    b.extents[n - 2],
                    destination_block.extents[n - 2].start,
                    source_panel.0,
                    destination_panel.0,
                ),
                aligned_pieces(
                    a.extents[m - 1],
                    source_block.extents[m - 1].start,
                    b.extents[n - 1],
                    destination_block.extents[n - 1].start,
                    source_panel.1,
                    destination_panel.1,
                ),
            ) {
                (Ok(rows), Ok(columns)) => Ok(
                    batch_pieces_from(
                        a,
                        b,
                        rows,
                        columns,
                        matrix_count_of(source.extents)->Some_0,
                        0,
                        Seq::empty(),
                    ),
                ),
                _ => Err(ExpansionError::InvalidOperatorPlan),
            },
            _ => Err(ExpansionError::InvalidOperatorPlan),
        }
    }
}

/// Both sides of a piece are whole words, and equally many.
pub open spec fn words_agree<M: BlockTarget>(
    target: &M,
    shards: Seq<ShardModel>,
    mapping: Mapping,
) -> Result<bool, ExpansionError> {
    match block_spans(target, shards, mapping.0, CopyOrder::Physical) {
        Err(e) => Err(e),
        Ok(a) => match block_spans(target, shards, mapping.1, CopyOrder::Physical) {
            Err(e) => Err(e),
            Ok(b) => Ok(
                all_word_aligned(a) && all_word_aligned(b) && total_bytes(a, a.len() as int)
                    == total_bytes(b, b.len() as int),
            ),
        },
    }
}

/// All pieces from `i` on are whole words on both sides.
pub open spec fn pieces_agree_from<M: BlockTarget>(
    target: &M,
    shards: Seq<ShardModel>,
    pieces: Seq<Mapping>,
    i: int,
) -> Result<bool, ExpansionError>
    decreases pieces.len() - i,
{
    if i >= pieces.len() {
        Ok(true)
    } else {
        match words_agree(target, shards, pieces[i]) {
            Err(e) => Err(e),
            Ok(false) => Ok(false),
            Ok(true) => pieces_agree_from(target, shards, pieces, i + 1),
        }
    }
}

/// `done` followed by the pieces of the mappings from `i` on. `None` where some
/// mapping cannot be divided into pieces of whole words.
pub open spec fn divided_from<M: BlockTarget>(
    target: &M,
    shards: Seq<ShardModel>,
    mappings: Seq<Mapping>,
    i: int,
    done: Seq<Mapping>,
) -> Result<Option<Seq<Mapping>>, ExpansionError>
    decreases mappings.len() - i,
{
    if i >= mappings.len() {
        Ok(Some(done))
    } else {
        let (source, destination) = mappings[i];
        match block_of(shards, source.shard) {
            Err(e) => Err(e),
            Ok(a) => match block_of(shards, destination.shard) {
                Err(e) => Err(e),
                Ok(b) => if !target.spec_exchanges_micro_panels(
                    a.tensor_type.format,
                    b.tensor_type.format,
                ) {
                    Ok(None)
                } else {
                    match divided_mapping(target, a, source, b, destination) {
                        Err(e) => Err(e),
                        Ok(pieces) => match pieces_agree_from(target, shards, pieces, 0) {
                            Err(e) => Err(e),
                            Ok(false) => Ok(None),
                            Ok(true) => divided_from(
                                target,
                                shards,
                                mappings,
                                i + 1,
                                done + pieces,
                            ),
                        },
                    }
                },
            },
        }
    }
}

/// Mappings that can be exchanged without regard to coordinates: panel by panel
/// where all are whole panels, and else in pieces that cross no panel boundary.
pub open spec fn micro_panel_mappings<M: BlockTarget>(
    target: &M,
    shards: Seq<ShardModel>,
    mappings: Seq<Mapping>,
) -> Result<Option<(Seq<Mapping>, CopyOrder)>, ExpansionError> {
    match padded_mappings_from(target, shards, mappings, 0, Seq::empty()) {
        Err(e) => Err(e),
        Ok(padded) => if all_regular(target, shards, padded) {
            Ok(Some((padded, CopyOrder::Panels)))
        } else {
            match divided_from(target, shards, padded, 0, Seq::empty()) {
                Err(e) => Err(e),
                Ok(None) => Ok(None),
                Ok(Some(pieces)) => Ok(Some((pieces, CopyOrder::Physical))),
            }
        },
    }
}

// ---------------------------------------------------------------- carrying out

/// A mapping as it is handed on.
pub type ViewMapping = (ShardView, ShardView);

fn pad_rows(view: &ShardView, padding: u32) -> (r: ShardView)
    requires
        view.extents@.len() >= 2,
        view.extents@[view.extents@.len() - 2].logical_end + padding <= u32::MAX,
    ensures
        r@ == with_row_padding(view@, padding),
{
    let row = view.extents.len() - 2;
    let rows: ShardExtent = view.extents[row];
    let mut extents = copy_all(view.extents.as_slice());
    extents.set(
        row,
        ShardExtent {
            axis: rows.axis,
            start: rows.start,
            logical_end: rows.logical_end,
            physical_end: max_u32(rows.physical_end, rows.logical_end + padding),
        },
    );
    ShardView { shard: view.shard, extents }
}

/// Takes along the row padding that both sides of a mapping hold.
pub fn extend_panel_row_padding<M: BlockTarget>(
    target: &M,
    source_block: &LowShard,
    source: &ShardView,
    destination_block: &LowShard,
    destination: &ShardView,
) -> (r: ViewMapping)
    ensures
        r@ == with_panel_padding(target, source_block@, source@, destination_block@, destination@),
{
    if source.extents.len() < 2 || destination.extents.len() < 2 {
        return (source.duplicate(), destination.duplicate());
    }
    let a = source.extents.len() - 2;
    let b = destination.extents.len() - 2;
    if a >= source_block.tensor_type.shape.0.len() || a >= source_block.extents.len() || b
        >= destination_block.tensor_type.shape.0.len() || b >= destination_block.extents.len() {
        return (source.duplicate(), destination.duplicate());
    }
    let rows: ShardExtent = source.extents[a];
    let held: ShardExtent = source_block.extents[a];
    let other_rows: ShardExtent = destination.extents[b];
    let other_held: ShardExtent = destination_block.extents[b];
    if rows.logical_end != source_block.tensor_type.shape.0[a] || rows.logical_end < held.start
        || rows.logical_end > held.physical_end || other_rows.logical_end
        != destination_block.tensor_type.shape.0[b] || other_rows.logical_end < other_held.start
        || other_rows.logical_end > other_held.physical_end {
        return (source.duplicate(), destination.duplicate());
    }
    match (
        target.exchange_panel_shape(&source_block.tensor_type.format),
        target.exchange_panel_shape(&destination_block.tensor_type.format),
    ) {
        (Some((panel, _)), Some((other_panel, _))) => {
            let tail: u32 = (panel - (rows.logical_end - held.start) % panel) % panel;
            let other_tail: u32 = (other_panel - (other_rows.logical_end - other_held.start)
                % other_panel) % other_panel;
            let padding: u32 = min_u32(
                min_u32(tail, other_tail),
                min_u32(
                    held.physical_end - rows.logical_end,
                    other_held.physical_end - other_rows.logical_end,
                ),
            );
            (pad_rows(source, padding), pad_rows(destination, padding))
        },
        _ => (source.duplicate(), destination.duplicate()),
    }
}

fn count_matrices(extents: &Vec<ShardExtent>) -> (r: Option<u32>)
    requires
        extents@.len() >= 2,
    ensures
        match r {
            Some(count) => matrix_count_of(extents@) == Some(count as int),
            None => matrix_count_of(extents@) is None,
        },
        r is Some ==> forall|i: int|
            0 <= i < extents@.len() - 2 ==> (#[trigger] extents@[i]).start
                <= extents@[i].logical_end,
        r matches Some(count) ==> count > 0 ==> forall|i: int|
            0 <= i < extents@.len() - 2 ==> (#[trigger] extents@[i]).start < extents@[i].logical_end,
{
    let mut count: u32 = 1;
    let mut i: usize = 0;
    while i < extents.len() - 2
        invariant
            i <= extents@.len() - 2,
            matrix_count_of(extents@) == matrices_from(extents@, i as int, count as int),
            forall|k: int|
                0 <= k < i ==> (#[trigger] extents@[k]).start <= extents@[k].logical_end,
            count > 0 ==> forall|k: int|
                0 <= k < i ==> (#[trigger] extents@[k]).start < extents@[k].logical_end,
        decreases extents@.len() - i,
    {
        let extent: ShardExtent = extents[i];
        if extent.logical_end < extent.start {
            return None;
        }
        let width: u32 = extent.logical_end - extent.start;
        assert(width == 0 ==> count * width == 0) by (nonlinear_arith);
        count = match count.checked_mul(width) {
            Some(count) => count,
            None => {
                return None;
            },
        };
        i += 1;
    }
    Some(count)
}

fn select_matrix(view: &ShardView, index: u32) -> (r: ShardView)
    requires
        view.extents@.len() >= 2,
        forall|i: int|
            0 <= i < view.extents@.len() - 2 ==> (#[trigger] view.extents@[i]).start
                < view.extents@[i].logical_end,
    ensures
        r@ == matrix_of(view@, index as int),
{
    let mut extents = copy_all(view.extents.as_slice());
    let mut end: usize = view.extents.len() - 2;
    let mut index: u32 = index;
    let ghost first = index;
    while end > 0
        invariant
            end <= view.extents@.len() - 2,
            extents@.len() == view.extents@.len(),
            forall|i: int| 0 <= i < end ==> #[trigger] extents@[i] == view.extents@[i],
            nth_matrix(view.extents@, view.extents@.len() - 2, first as int) == nth_matrix(
                extents@,
                end as int,
                index as int,
            ),
        decreases end,
    {
        let extent: ShardExtent = extents[end - 1];
        assert(extent == view.extents@[end - 1]);
        let width: u32 = extent.logical_end - extent.start;
        let start: u32 = extent.start + index % width;
        extents.set(
            end - 1,
            ShardExtent {
                axis: extent.axis,
                start,
                logical_end: start + 1,
                physical_end: start + 1,
            },
        );
        index = index / width;
        end -= 1;
    }
    ShardView { shard: view.shard, extents }
}

fn append_matrix_pieces(
    source: &ShardView,
    destination: &ShardView,
    rows: &Vec<(ShardExtent, ShardExtent)>,
    columns: &Vec<(ShardExtent, ShardExtent)>,
    pieces: &mut Vec<ViewMapping>,
)
    requires
        source.extents@.len() >= 2,
        destination.extents@.len() >= 2,
    ensures
        deep(final(pieces)@) == matrix_pieces_from(
            source@,
            destination@,
            rows@,
            columns@,
            0,
            deep(old(pieces)@),
        ),
{
    broadcast use group_deep;

    let ghost before = deep(pieces@);
    let mut r: usize = 0;
    while r < rows.len()
        invariant
            r <= rows@.len(),
            matrix_pieces_from(source@, destination@, rows@, columns@, 0, before)
                == matrix_pieces_from(
                source@,
                destination@,
                rows@,
                columns@,
                r as int,
                deep(pieces@),
            ),
        decreases rows@.len() - r,
    {
        let row = rows[r];
        let ghost middle = deep(pieces@);
        let mut c: usize = 0;
        while c < columns.len()
            invariant
                c <= columns@.len(),
                row_pieces_from(source@, destination@, row, columns@, 0, middle)
                    == row_pieces_from(
                    source@,
                    destination@,
                    row,
                    columns@,
                    c as int,
                    deep(pieces@),
                ),
            decreases columns@.len() - c,
        {
            let column = columns[c];
            let from = ShardView {
                shard: source.shard,
                extents: replace_matrix(&source.extents, row.0, column.0),
            };
            let to = ShardView {
                shard: destination.shard,
                extents: replace_matrix(&destination.extents, row.1, column.1),
            };
            let piece = (from, to);
            pieces.push(piece);
            c += 1;
        }
        r += 1;
    }
}

/// Divides corresponding views at the panel boundaries of both blocks.
pub fn divide_mapping<M: BlockTarget>(
    target: &M,
    source_block: &LowShard,
    source: &ShardView,
    destination_block: &LowShard,
    destination: &ShardView,
) -> (r: ExpansionResult<Vec<ViewMapping>>)
    ensures
        crate::blocks::obtained_all(
            r,
            divided_mapping(target, source_block@, source@, destination_block@, destination@),
        ),
{
    broadcast use group_deep;

    let m = source.extents.len();
    let n = destination.extents.len();
    if m < 2 || n < 2 || source_block.extents.len() != m || destination_block.extents.len() != n {
        return Err(ExpansionError::InvalidOperatorPlan);
    }
    let count: u32 = match (count_matrices(&source.extents), count_matrices(&destination.extents)) {
        (Some(a), Some(b)) => {
            if a != b {
                return Err(ExpansionError::InvalidOperatorPlan);
            }
            a
        },
        _ => {
            return Err(ExpansionError::InvalidOperatorPlan);
        },
    };
    let (a, b) = extend_panel_row_padding(
        target,
        source_block,
        source,
        destination_block,
        destination,
    );
    let (panel, other_panel) = match (
        target.exchange_panel_shape(&source_block.tensor_type.format),
        target.exchange_panel_shape(&destination_block.tensor_type.format),
    ) {
        (Some(panel), Some(other_panel)) => (panel, other_panel),
        _ => {
            return Err(ExpansionError::InvalidOperatorPlan);
        },
    };
    let (rows, columns) = match (
        aligned_ranges(
            a.extents[m - 2],
            source_block.extents[m - 2].start,
            b.extents[n - 2],
            destination_block.extents[n - 2].start,
            panel.0,
            other_panel.0,
        ),
        aligned_ranges(
            a.extents[m - 1],
            source_block.extents[m - 1].start,
            b.extents[n - 1],
            destination_block.extents[n - 1].start,
            panel.1,
            other_panel.1,
        ),
    ) {
        (Ok(rows), Ok(columns)) => (rows, columns),
        _ => {
            return Err(ExpansionError::InvalidOperatorPlan);
        },
    };
    let mut pieces: Vec<ViewMapping> = Vec::new();
    assert(deep(pieces@) =~= Seq::<Mapping>::empty());
    let mut k: u32 = 0;
    while k < count
        invariant
            k <= count,
            batch_pieces_from(a@, b@, rows@, columns@, count as int, 0, Seq::empty())
                == batch_pieces_from(
                a@,
                b@,
                rows@,
                columns@,
                count as int,
                k as int,
                deep(pieces@),
            ),
        decreases count - k,
    {
        let from = select_matrix(&a, k);
        let to = select_matrix(&b, k);
        proof {
            lemma_nth_matrix_rank(a@.extents, m - 2, k as int);
            lemma_nth_matrix_rank(b@.extents, n - 2, k as int);
        }
        append_matrix_pieces(&from, &to, &rows, &columns, &mut pieces);
        k += 1;
    }
    Ok(pieces)
}

proof fn lemma_nth_matrix_rank(extents: Seq<ShardExtent>, end: int, index: int)
    requires
        end <= extents.len(),
    ensures
        nth_matrix(extents, end, index).len() == extents.len(),
    decreases end,
{
    if end > 0 {
        let extent = extents[end - 1];
        let width = extent.logical_end - extent.start;
        let start = (extent.start + index % width) as u32;
        lemma_nth_matrix_rank(
            extents.update(
                end - 1,
                ShardExtent {
                    axis: extent.axis,
                    start,
                    logical_end: (start + 1) as u32,
                    physical_end: (start + 1) as u32,
                },
            ),
            end - 1,
            index / width,
        );
    }
}

fn have_same_widths(a: ShardExtent, b: ShardExtent) -> (r: bool)
    ensures
        r == same_widths(a, b),
{
    a.physical_end as i64 - a.start as i64 == b.physical_end as i64 - b.start as i64
        && a.logical_end as i64 - a.start as i64 == b.logical_end as i64 - b.start as i64
}

fn panels_are_words<M: BlockTarget>(target: &M, block: &LowShard, view: &ShardView) -> (r: bool)
    ensures
        r == has_word_panels(target, block@, view@),
{
    match target.panel_byte_spans(
        &block.tensor_type.format,
        block.extents.as_slice(),
        view.extents.as_slice(),
    ) {
        Ok(spans) => are_word_aligned(&spans),
        Err(_) => false,
    }
}

impl TileGraphBuilder {
    fn is_regular<M: BlockTarget>(&self, target: &M, mapping: &ViewMapping) -> (r: bool)
        ensures
            r == is_regular(target, self@.shards, mapping@),
    {
        broadcast use group_deep;

        let source = &mapping.0;
        let destination = &mapping.1;
        if source.shard.0 as usize >= self.shards.len() || destination.shard.0 as usize
            >= self.shards.len() || source.extents.len() < 2 || destination.extents.len() < 2 {
            return false;
        }
        let a = &self.shards[source.shard.0 as usize];
        let b = &self.shards[destination.shard.0 as usize];
        let m = source.extents.len();
        let n = destination.extents.len();
        target.supports_micro_panel_exchange(&a.tensor_type.format, &b.tensor_type.format)
            && have_same_widths(source.extents[m - 2], destination.extents[n - 2])
            && have_same_widths(source.extents[m - 1], destination.extents[n - 1])
            && panels_are_words(target, a, source) && panels_are_words(target, b, destination)
    }

    fn are_regular<M: BlockTarget>(&self, target: &M, mappings: &Vec<ViewMapping>) -> (r: bool)
        ensures
            r == all_regular(target, self@.shards, deep(mappings@)),
    {
        broadcast use group_deep;

        if mappings.len() == 0 {
            return false;
        }
        let ghost model = deep(mappings@);
        let mut i: usize = 0;
        while i < mappings.len()
            invariant
                i <= mappings@.len(),
                forall|k: int|
                    0 <= k < i ==> is_regular(target, self@.shards, #[trigger] model[k]),
            decreases mappings@.len() - i,
        {
            assert(model[i as int] == mappings@[i as int]@);
            if !self.is_regular(target, &mappings[i]) {
                return false;
            }
            i += 1;
        }
        true
    }

    fn pieces_agree<M: BlockTarget>(&self, target: &M, pieces: &Vec<ViewMapping>) -> (r:
        ExpansionResult<bool>)
        ensures
            r == pieces_agree_from(target, self@.shards, deep(pieces@), 0),
    {
        broadcast use group_deep;

        let ghost model = deep(pieces@);
        let mut i: usize = 0;
        while i < pieces.len()
            invariant
                i <= pieces@.len(),
                pieces_agree_from(target, self@.shards, model, 0) == pieces_agree_from(
                    target,
                    self@.shards,
                    model,
                    i as int,
                ),
            decreases pieces@.len() - i,
        {
            assert(model[i as int] == pieces@[i as int]@);
            let a = self.spans(target, &pieces[i].0, CopyOrder::Physical)?;
            let b = self.spans(target, &pieces[i].1, CopyOrder::Physical)?;
            if !are_word_aligned(&a) || !are_word_aligned(&b) || sum_bytes(&a) != sum_bytes(&b) {
                return Ok(false);
            }
            i += 1;
        }
        Ok(true)
    }

    /// Mappings that can be exchanged without regard to coordinates.
    pub fn micro_panel_mappings<M: BlockTarget>(&self, target: &M, mappings: &Vec<ViewMapping>) -> (r:
        ExpansionResult<Option<(Vec<ViewMapping>, CopyOrder)>>)
        ensures
            match r {
                Ok(Some((found, order))) => micro_panel_mappings(
                    target,
                    self@.shards,
                    deep(mappings@),
                ) == Ok::<Option<(Seq<Mapping>, CopyOrder)>, ExpansionError>(
                    Some((deep(found@), order)),
                ),
                Ok(None) => micro_panel_mappings(target, self@.shards, deep(mappings@)) == Ok::<
                    Option<(Seq<Mapping>, CopyOrder)>,
                    ExpansionError,
                >(None),
                Err(e) => micro_panel_mappings(target, self@.shards, deep(mappings@)) == Err::<
                    Option<(Seq<Mapping>, CopyOrder)>,
                    ExpansionError,
                >(e),
            },
    {
        broadcast use group_deep;

        let ghost model = deep(mappings@);
        let mut padded: Vec<ViewMapping> = Vec::new();
        assert(deep(padded@) =~= Seq::<Mapping>::empty());
        let mut i: usize = 0;
        while i < mappings.len()
            invariant
                i <= mappings@.len(),
                padded_mappings_from(target, self@.shards, model, 0, Seq::empty())
                    == padded_mappings_from(
                    target,
                    self@.shards,
                    model,
                    i as int,
                    deep(padded@),
                ),
            decreases mappings@.len() - i,
        {
            assert(model[i as int] == mappings@[i as int]@);
            let (source, destination) = &mappings[i];
            let a = self.block(source.shard)?;
            let b = self.block(destination.shard)?;
            let extended = extend_panel_row_padding(target, a, source, b, destination);
            padded.push(extended);
            i += 1;
        }
        if self.are_regular(target, &padded) {
            return Ok(Some((padded, CopyOrder::Panels)));
        }
        let ghost model = deep(padded@);
        let mut found: Vec<ViewMapping> = Vec::new();
        assert(deep(found@) =~= Seq::<Mapping>::empty());
        let mut i: usize = 0;
        while i < padded.len()
            invariant
                i <= padded@.len(),
                divided_from(target, self@.shards, model, 0, Seq::empty()) == divided_from(
                    target,
                    self@.shards,
                    model,
                    i as int,
                    deep(found@),
                ),
            decreases padded@.len() - i,
        {
            assert(model[i as int] == padded@[i as int]@);
            let (source, destination) = &padded[i];
            let a = self.block(source.shard)?;
            let b = self.block(destination.shard)?;
            if !target.supports_micro_panel_exchange(
                &a.tensor_type.format,
                &b.tensor_type.format,
            ) {
                return Ok(None);
            }
            let mut pieces = divide_mapping(target, a, source, b, destination)?;
            if !self.pieces_agree(target, &pieces)? {
                return Ok(None);
            }
            let ghost before = deep(found@);
            let ghost more = deep(pieces@);
            found.append(&mut pieces);
            assert(deep(found@) =~= before + more);
            i += 1;
        }
        Ok(Some((found, CopyOrder::Physical)))
    }
}

} // verus!
