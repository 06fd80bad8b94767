use std::collections::BTreeMap;

use ipu_codegen::block_packing::{CopyPolicy, PackingPolicy};
use ipu_codegen::blocks::{BlockExchange, ExpansionError, TileGraphBuilder, ViewList};
use ipu_codegen::copy_lowering::CopyRequest;
use ipu_codegen::linear::Linear;
use ipu_codegen::low::{
    LowShard, LowShardId, ShardDefinition, ShardView, WorkProvenance, WorkReason,
};
use ipu_codegen::mid::MidValueId;
use ipu_codegen::relay::find_panel_views;
use ipu_codegen::target::TargetCosts;
use ipu_codegen::tensor::{
    ElementOrder, Layout, MemoryClass, Precision, ShardExtent, TensorFormat, TensorShape,
    TensorTiling, TensorType,
};

fn size(extent: &ShardExtent) -> u32 {
    extent.physical_end - extent.start
}

fn device() -> Linear {
    Linear {
        costs: TargetCosts {
            kernel_launch_cycles: 100,
            logical_fragment_cycles: 6,
            max_transfer_words: 63,
            interleaved_region_bytes: 0x8000,
        },
    }
}

fn copied(view: &ShardView) -> ShardView {
    ShardView { shard: view.shard, extents: view.extents.clone() }
}

fn repeated(transfer: &BlockExchange) -> BlockExchange {
    BlockExchange {
        source: copied(&transfer.source),
        destinations: transfer.destinations.iter().map(copied).collect(),
        order: transfer.order,
    }
}

fn extent(axis: u16, start: u32, end: u32) -> ShardExtent {
    ShardExtent { axis, start, logical_end: end, physical_end: end }
}

fn tensor_type(tiles: u16) -> TensorType {
    TensorType {
        shape: TensorShape(vec![2, 32, 64]),
        format: TensorFormat {
            precision: Precision::F8F143 { scale_exponent: -4 },
            layout: Layout {
                order: ElementOrder::RowMajor,
                tiling: TensorTiling::replicated(tiles),
                memory_class: MemoryClass::Ipu21Standard,
            },
        },
    }
}

/// One row of both matrices on each of thirty-two tiles, and sixteen tiles that
/// are to have all rows.
fn blocks() -> TileGraphBuilder {
    let mut shards = vec![];
    for row in 0..32 {
        shards.push(LowShard {
            id: LowShardId::from_index(row),
            tile: row as u16,
            tensor_type: tensor_type(32),
            extents: vec![extent(0, 0, 2), extent(1, row, row + 1), extent(2, 0, 64)],
            definition: ShardDefinition::Value(MidValueId::from_index(0)),
        });
    }
    for receiver in 0..16 {
        shards.push(LowShard {
            id: LowShardId::from_index(32 + receiver),
            tile: 40 + receiver as u16,
            tensor_type: tensor_type(16),
            extents: vec![extent(0, 0, 2), extent(1, 0, 32), extent(2, 0, 64)],
            definition: ShardDefinition::Value(MidValueId::from_index(1)),
        });
    }
    let views = |range: std::ops::Range<usize>| ViewList {
        views: shards[range]
            .iter()
            .map(|shard| ShardView { shard: shard.id, extents: shard.extents.clone() })
            .collect(),
    };
    let bindings = vec![views(0..32), views(32..48)];
    TileGraphBuilder {
        tile_count: 64,
        shards,
        types: vec![tensor_type(32), tensor_type(16)],
        bindings,
        phases: vec![],
        kernel_runs: vec![],
        local_copies: vec![],
        operations: vec![],
    }
}

fn fixture(policy: CopyPolicy) -> TileGraphBuilder {
    let mut graph = blocks();
    graph
        .lower_copies(
            &device(),
            &vec![CopyRequest {
                provenance: WorkProvenance {
                    operation: None,
                    value: Some(MidValueId::from_index(1)),
                    reason: WorkReason::LayoutRearrangement,
                },
                inputs: vec![MidValueId::from_index(0)],
                results: vec![MidValueId::from_index(1)],
                view: None,
                offsets: vec![],
                policy,
                packing: PackingPolicy::Direct,
            }],
        )
        .unwrap();
    graph
}

/// Which byte every byte of the receivers comes from.
fn execute(graph: &TileGraphBuilder) -> BTreeMap<(LowShardId, u32), (LowShardId, u32)> {
    let mut memory = BTreeMap::new();
    for transfer in &graph.phases[0].transfers {
        let bytes = |view: &ShardView| {
            graph
                .spans(&device(), view, transfer.order)
                .unwrap()
                .iter()
                .flat_map(|span| (span.offset..span.offset + span.bytes).collect::<Vec<_>>())
                .collect::<Vec<_>>()
        };
        let source = bytes(&transfer.source);
        for destination in &transfer.destinations {
            let target = bytes(destination);
            assert_eq!(source.len(), target.len());
            for (&a, b) in source.iter().zip(target) {
                let key = (transfer.source.shard, a);
                let token = memory.get(&key).copied().unwrap_or(key);
                memory.insert((destination.shard, b), token);
            }
        }
    }
    memory.retain(|(id, _): &(LowShardId, u32), _| (32..48).contains(&id.index()));
    memory
}

#[test]
fn relays_preserve_bytes() {
    let direct = fixture(CopyPolicy::DirectRetile);
    let expected = execute(&direct);
    let program = fixture(CopyPolicy::GatherThenMulticast);
    assert_eq!(direct.shards.len(), 48);
    assert_eq!(program.shards.len(), 50);
    assert_eq!(program.phases.len(), 1);
    assert_eq!(execute(&program), expected);
    assert!(program.shards[48..]
        .iter()
        .all(|shard| shard.definition == ShardDefinition::Staging));
    assert_eq!(expected.len(), 16 * 2 * 32 * 64);
}

#[test]
fn incomplete_overlapping_or_dependent_materializations_are_rejected() {
    for mode in 0..3 {
        let mut program = fixture(CopyPolicy::DirectRetile);
        let mut transfers = program
            .phases[0]
            .transfers
            .iter()
            .map(|transfer| repeated(transfer))
            .collect::<Vec<_>>();
        match mode {
            0 => {
                transfers.pop();
            }
            1 => {
                transfers[0] = repeated(&transfers[1]);
            }
            _ => {
                program.shards[32].definition =
                    ShardDefinition::Alias(LowShardId::from_index(0));
            }
        }
        assert_eq!(
            program.gather(&device(), &transfers).err(),
            Some(ExpansionError::InvalidCopyPlan),
        );
        assert_eq!(program.shards.len(), 48);
    }
}

#[test]
fn panels_divide_matrices() {
    let graph = blocks();
    let panels = find_panel_views(&device(), &graph.shards[32]).unwrap();
    let starts = panels.iter().map(|panel| panel.extents[0].start).collect::<Vec<_>>();
    assert_eq!(starts, vec![0, 1]);
    for panel in panels {
        assert_eq!(size(&panel.extents[0]), 1);
        assert_eq!(size(&panel.extents[1]), 32);
        assert_eq!(size(&panel.extents[2]), 64);
    }
    let vector = LowShard {
        id: LowShardId::from_index(0),
        tile: 0,
        tensor_type: tensor_type(1),
        extents: vec![extent(0, 0, 2)],
        definition: ShardDefinition::Staging,
    };
    assert!(find_panel_views(&device(), &vector).is_none());
}

#[test]
fn relays_run_on_tiles_that_take_no_part() {
    let program = fixture(CopyPolicy::GatherThenMulticast);
    let tiles = program.shards[48..].iter().map(|shard| shard.tile).collect::<Vec<_>>();
    assert_eq!(tiles, vec![63, 62]);
}
