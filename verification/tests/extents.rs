use ipu_codegen::extents::{
    intersect_extents, intersect_extents_with_shared_padding, split_head_source_extents,
    split_mapping_at_panel_boundaries,
};
use ipu_codegen::low::{LowLoweringError, LowShard, LowShardId, ShardDefinition, ShardView};
use ipu_codegen::tensor::{
    AmpOrder, BlockMajorOrder, ElementOrder, Layout, MemoryClass, Precision, ShardExtent,
    TensorFormat, TensorShape, TensorTiling, TensorType, AMP_COLUMN_MICRO, AMP_INNER_BLOCK,
};

const CASES: usize = 32;

#[test]
fn randomized_padded_intersections_do_not_claim_adjacent_groups() {
    let mut random = fastrand::Rng::with_seed(0x7064_5f69_6e74_6572);
    for case in 0..CASES * 8 {
        let width = random.u32(1..=127);
        let padding = random.u32(1..=31);
        let group = random.u32(0..=30);
        let start = group * width;
        let owned = ShardExtent {
            axis: 0,
            start,
            logical_end: start + width,
            physical_end: start + width + padding,
        };
        let matching = intersect_extents_with_shared_padding(&[owned], &[owned]).unwrap();
        assert_eq!(matching, vec![owned], "case {case}");

        let adjacent = ShardExtent {
            axis: 0,
            start: start + width,
            logical_end: start + width * 2,
            physical_end: start + width * 2 + padding,
        };
        assert!(
            intersect_extents_with_shared_padding(&[owned], &[adjacent]).is_none(),
            "case {case}"
        );

        let narrower_padding = random.u32(0..=padding);
        let narrower = ShardExtent {
            physical_end: owned.logical_end + narrower_padding,
            ..owned
        };
        let intersection = intersect_extents_with_shared_padding(&[owned], &[narrower]).unwrap();
        assert_eq!(
            intersection[0].physical_end,
            owned.logical_end + narrower_padding,
            "case {case}"
        );
    }
}

#[test]
fn intersections_are_common_elements() {
    let a = ShardExtent { axis: 3, start: 2, logical_end: 9, physical_end: 16 };
    let b = ShardExtent { axis: 3, start: 5, logical_end: 12, physical_end: 12 };
    assert_eq!(
        intersect_extents(&[a], &[b]),
        Some(vec![ShardExtent { axis: 3, start: 5, logical_end: 9, physical_end: 9 }]),
    );
    let apart = ShardExtent { axis: 3, start: 9, logical_end: 12, physical_end: 12 };
    assert_eq!(intersect_extents(&[a], &[apart]), None);
}

#[test]
fn randomized_split_head_mappings_are_bijective_rectangles() {
    let mut random = fastrand::Rng::with_seed(0x6d61_7070_6564_5f68);
    for _ in 0..CASES * 8 {
        let batch = random.u32(1..=8);
        let heads = random.u32(1..=32);
        let rows = random.u32(1..=256);
        let width = random.u32(1..=128);
        let stream = random.u32(0..batch * heads);
        let row_start = random.u32(0..rows);
        let row_end = random.u32(row_start + 1..=rows);
        let column_start = random.u32(0..width);
        let column_end = random.u32(column_start + 1..=width);
        let output = vec![
            ShardExtent {
                axis: 0,
                start: stream,
                logical_end: stream + 1,
                physical_end: stream + 1,
            },
            ShardExtent {
                axis: 1,
                start: row_start,
                logical_end: row_end,
                physical_end: row_end,
            },
            ShardExtent {
                axis: 2,
                start: column_start,
                logical_end: column_end,
                physical_end: column_end,
            },
        ];
        let (source, base) = split_head_source_extents(&output, heads, width).unwrap();

        assert_eq!(source[0].start, stream / heads);
        assert_eq!(source[1], output[1]);
        assert_eq!(source[2].start, base + column_start);
        assert_eq!(source[2].logical_end, base + column_end);
        assert_eq!(
            source
                .iter()
                .map(|extent| extent.logical_end - extent.start)
                .product::<u32>(),
            output
                .iter()
                .map(|extent| extent.logical_end - extent.start)
                .product::<u32>()
        );
    }
}

fn panel(id: u32, rows: u32, physical_rows: u32, order: ElementOrder) -> LowShard {
    LowShard {
        id: LowShardId::from_index(id),
        tile: id as u16,
        tensor_type: TensorType {
            shape: TensorShape(vec![rows, AMP_COLUMN_MICRO]),
            format: TensorFormat {
                precision: Precision::F16,
                layout: Layout {
                    order,
                    tiling: TensorTiling::replicated(1),
                    memory_class: MemoryClass::Ipu21Standard,
                },
            },
        },
        extents: vec![
            ShardExtent { axis: 0, start: 0, logical_end: rows, physical_end: physical_rows },
            ShardExtent {
                axis: 1,
                start: 0,
                logical_end: AMP_COLUMN_MICRO,
                physical_end: AMP_COLUMN_MICRO,
            },
        ],
        definition: ShardDefinition::ExchangeStaging,
    }
}

fn logical_view(shard: &LowShard) -> ShardView {
    ShardView {
        shard: shard.id,
        extents: shard
            .extents
            .iter()
            .map(|extent| ShardExtent { physical_end: extent.logical_end, ..*extent })
            .collect(),
    }
}

/// Position of an element of a panel: transposed operands are kept by groups of
/// rows, each of them column by column, and blocked ones block by block, each of
/// them row by row.
fn position(shard: &LowShard, row: u32, column: u32) -> u32 {
    let columns = shard.extents[1].physical_end;
    match shard.tensor_type.format.layout.order {
        ElementOrder::Amp(AmpOrder::TransposedLeft) => {
            let group = row / AMP_COLUMN_MICRO;
            (group * columns + column) * AMP_COLUMN_MICRO + row % AMP_COLUMN_MICRO
        }
        ElementOrder::BlockMajor(BlockMajorOrder::Matrix { row_block, column_block }) => {
            let (height, width) = (u32::from(row_block), u32::from(column_block));
            let block = row / height * (columns / width) + column / width;
            block * height * width + row % height * width + column % width
        }
        _ => row * columns + column,
    }
}

/// Offsets and lengths of the bytes of a view, in the order of their addresses.
fn spans(shard: &LowShard, view: &ShardView) -> Vec<(u32, u32)> {
    assert_eq!(view.shard, shard.id);
    let range = |axis: usize| view.extents[axis].start..view.extents[axis].physical_end;
    let mut offsets = range(0)
        .flat_map(|row| range(1).map(move |column| position(shard, row, column) * 2))
        .collect::<Vec<_>>();
    offsets.sort_unstable();
    let mut spans: Vec<(u32, u32)> = vec![];
    for offset in offsets {
        match spans.last_mut() {
            Some((start, bytes)) if *start + *bytes == offset => *bytes += 2,
            _ => spans.push((offset, 2)),
        }
    }
    spans
}

#[test]
fn randomized_micro_panel_mappings_carry_word_aligned_row_padding() {
    let mut random = fastrand::Rng::with_seed(0x7061_6464_6564_5f72);
    for case in 0..CASES * 8 {
        let rows = random.u32(1..=AMP_INNER_BLOCK);
        let panel_rows = rows.div_ceil(AMP_COLUMN_MICRO) * AMP_COLUMN_MICRO;
        let source_rows = if random.bool() { panel_rows } else { AMP_INNER_BLOCK };
        let source = panel(0, rows, source_rows, ElementOrder::Amp(AmpOrder::TransposedLeft));
        let destination = panel(
            1,
            rows,
            AMP_INNER_BLOCK,
            ElementOrder::BlockMajor(BlockMajorOrder::Matrix {
                row_block: AMP_INNER_BLOCK as u16,
                column_block: AMP_COLUMN_MICRO as u16,
            }),
        );
        let mappings = split_mapping_at_panel_boundaries(
            &source,
            &logical_view(&source),
            &destination,
            &logical_view(&destination),
        )
        .unwrap_or_else(|error| panic!("case {case}, rows {rows}: {error:?}"));
        let source_bytes = mappings
            .iter()
            .flat_map(|(view, _)| spans(&source, view))
            .map(|(offset, bytes)| {
                assert_eq!(offset & 0b11, 0, "case {case}, rows {rows}");
                assert_eq!(bytes & 0b11, 0, "case {case}, rows {rows}");
                bytes
            })
            .sum::<u32>();
        let destination_bytes = mappings
            .iter()
            .flat_map(|(_, view)| spans(&destination, view))
            .map(|(_, bytes)| bytes)
            .sum::<u32>();
        assert_eq!(source_bytes, panel_rows * AMP_COLUMN_MICRO * 2);
        assert_eq!(destination_bytes, source_bytes, "case {case}, rows {rows}");
    }
}

#[test]
fn shapes_may_have_more_axes_than_the_views_of_a_mapping() {
    let divided = |source: &LowShard, destination: &LowShard| {
        let mappings = split_mapping_at_panel_boundaries(
            source,
            &logical_view(source),
            destination,
            &logical_view(destination),
        );
        format!("{mappings:?}")
    };
    let mut source = panel(0, 20, 32, ElementOrder::Amp(AmpOrder::TransposedLeft));
    let mut destination = panel(1, 20, 32, ElementOrder::Amp(AmpOrder::TransposedLeft));
    let expected = divided(&source, &destination);
    assert!(expected.starts_with("Ok"));
    source.tensor_type.shape.0.push(5);
    destination.tensor_type.shape.0.push(5);
    assert_eq!(divided(&source, &destination), expected);
    source.extents.push(ShardExtent { axis: 2, start: 0, logical_end: 1, physical_end: 1 });
    let cut = ShardView { extents: logical_view(&source).extents[..2].to_vec(), ..logical_view(&source) };
    assert_eq!(
        split_mapping_at_panel_boundaries(&source, &cut, &destination, &logical_view(&destination))
            .err(),
        Some(LowLoweringError::InvalidOperatorPlan),
    );
}
