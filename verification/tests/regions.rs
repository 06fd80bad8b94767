use ipu_codegen::block_packing::{default_copy_policy, CopyPolicy, PackingPolicy};
use ipu_codegen::block_regions::{offset_extents, view_source_extents, AxisFactorView};
use ipu_codegen::blocks::ExpansionError;
use ipu_codegen::copies::{coalesce_local_copies, pair_spans};
use ipu_codegen::low::{LocalCopy, LocalCopyPattern, LowLoweringError, LowShardId};
use ipu_codegen::placement::choose_offset;
use ipu_codegen::tensor::{
    AmpOrder, ByteSpan, ElementOrder, Layout, MemoryClass, ShardExtent,
};

fn extent(axis: u16, start: u32, end: u32) -> ShardExtent {
    ShardExtent { axis, start, logical_end: end, physical_end: end }
}

#[test]
fn moving_back_restores() {
    let extents = vec![extent(0, 2, 5), extent(1, 0, 7)];
    let moved = offset_extents(&extents, &[3, 4], true).unwrap();
    assert_eq!(moved, vec![extent(0, 5, 8), extent(1, 4, 11)]);
    assert_eq!(offset_extents(&moved, &[3, 4], false).unwrap(), extents);
    assert_eq!(
        offset_extents(&extents, &[u32::MAX], true),
        Err(ExpansionError::IdOverflow),
    );
    assert_eq!(offset_extents(&extents, &[3], false), Err(ExpansionError::IdOverflow));
}

#[test]
fn factor_views_and_their_reverses_invert() {
    let split = AxisFactorView { split_axis: 2, merge_axis: 0, parts: 4, reversed: false };
    let joined = AxisFactorView { reversed: true, ..split };
    let source = [3, 5, 32];
    let output = split.output_shape(&source).unwrap();
    assert_eq!(output, vec![12, 5, 8]);
    assert_eq!(joined.output_shape(&output).unwrap(), source.to_vec());
    assert_eq!(split.output_shape(&[3, 5, 30]), None);

    let ranges = [(6, 7), (1, 3), (2, 5)];
    let read = view_source_extents(split, &source, &output, &ranges).unwrap();
    assert_eq!(read, vec![extent(0, 1, 2), extent(1, 1, 3), extent(2, 18, 21)]);
    let back = read.iter().map(|e| (e.start, e.logical_end)).collect::<Vec<_>>();
    let again = view_source_extents(joined, &output, &source, &back).unwrap();
    assert_eq!(again, vec![extent(0, 6, 7), extent(1, 1, 3), extent(2, 2, 5)]);
}

#[test]
fn policies_follow_the_order_of_elements() {
    let row_major = Layout::local(ElementOrder::RowMajor, MemoryClass::Ipu21Standard);
    let packed = Layout::local(ElementOrder::Amp(AmpOrder::Left), MemoryClass::Ipu21Interleaved);
    assert_eq!(default_copy_policy(&row_major, &row_major), CopyPolicy::DirectRetile);
    assert_eq!(
        default_copy_policy(&row_major, &packed),
        CopyPolicy::StageLogicalThenTransform,
    );
    assert_eq!(CopyPolicy::default(), CopyPolicy::Automatic);
    assert_eq!(PackingPolicy::default(), PackingPolicy::Automatic);
}

fn span(offset: u32, bytes: u32) -> ByteSpan {
    ByteSpan { offset, bytes }
}

fn copied(copies: &[LocalCopy]) -> Vec<(u32, u32)> {
    copies
        .iter()
        .flat_map(|copy| {
            let (rows, bytes, source_stride, destination_stride) = match copy.pattern {
                LocalCopyPattern::Contiguous => (1, copy.bytes, 0, 0),
                LocalCopyPattern::Strided {
                    rows,
                    row_bytes,
                    source_stride,
                    destination_stride,
                } => (rows, row_bytes, source_stride, destination_stride),
            };
            let (source, destination) = (copy.source_offset, copy.destination_offset);
            (0..rows).flat_map(move |row| {
                (0..bytes).map(move |byte| {
                    (
                        source + row * source_stride + byte,
                        destination + row * destination_stride + byte,
                    )
                })
            })
        })
        .collect()
}

#[test]
fn paired_spans_copy_byte_for_byte() {
    let (source, destination) = (LowShardId::from_index(0), LowShardId::from_index(1));
    let a = vec![span(0, 8), span(32, 8), span(64, 8), span(96, 8)];
    let b = vec![span(100, 16), span(132, 16)];
    let copies = pair_spans(source, destination, &a, &b).unwrap();
    let bytes = |spans: &Vec<ByteSpan>| {
        spans.iter().flat_map(|s| s.offset..s.offset + s.bytes).collect::<Vec<_>>()
    };
    let expected = bytes(&a).into_iter().zip(bytes(&b)).collect::<Vec<_>>();
    assert_eq!(copied(&copies), expected);
    let mut joined = copied(&coalesce_local_copies(copies));
    joined.sort_unstable();
    let mut sorted = expected;
    sorted.sort_unstable();
    assert_eq!(joined, sorted);
    assert_eq!(
        pair_spans(source, destination, &a, &vec![span(0, 4)]).err(),
        Some(LowLoweringError::InvalidConversionPlan),
    );
}

#[test]
fn the_offset_with_the_least_peak_is_chosen() {
    assert_eq!(choose_offset(&vec![10, 0, 5], &vec![4, 4], 3), 1);
    assert_eq!(choose_offset(&vec![0, 0, 0], &vec![4], 3), 0);
}
