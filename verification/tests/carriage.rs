use std::collections::BTreeMap;

use ipu_codegen::block_packing::{CopyPolicy, PackingPolicy};
use ipu_codegen::blocks::{BlockOperation, ExpansionError, TileGraphBuilder, ViewList};
use ipu_codegen::copy_lowering::CopyRequest;
use ipu_codegen::linear::Linear;
use ipu_codegen::low::{
    LocalCopy, LocalCopyPattern, LowShard, LowShardId, ShardDefinition, ShardView, WorkProvenance,
    WorkReason,
};
use ipu_codegen::mid::MidValueId;
use ipu_codegen::target::TargetCosts;
use ipu_codegen::tensor::{
    ElementOrder, Layout, MemoryClass, Precision, ShardExtent, TensorFormat, TensorShape,
    TensorTiling, TensorType,
};

fn device() -> Linear {
    Linear {
        costs: TargetCosts {
            kernel_launch_cycles: 100,
            logical_fragment_cycles: 6,
            max_transfer_words: 63,
            interleaved_region_bytes: 0x8000,
        },
    }
}

fn extent(axis: u16, start: u32, end: u32) -> ShardExtent {
    ShardExtent { axis, start, logical_end: end, physical_end: end }
}

fn tensor_type(tiles: u16) -> TensorType {
    TensorType {
        shape: TensorShape(vec![8, 6]),
        format: TensorFormat {
            precision: Precision::F8F143 { scale_exponent: -4 },
            layout: Layout {
                order: ElementOrder::RowMajor,
                tiling: TensorTiling::replicated(tiles),
                memory_class: MemoryClass::Ipu21Standard,
            },
        },
    }
}

/// Half of the rows, or half of the columns.
fn half(rows: bool, part: u32) -> Vec<ShardExtent> {
    if rows {
        vec![extent(0, 4 * part, 4 * part + 4), extent(1, 0, 6)]
    } else {
        vec![extent(0, 0, 8), extent(1, 3 * part, 3 * part + 3)]
    }
}

/// A value in two halves on the first two tiles, to be in halves of the other
/// kind on the first tile and on the fifth.
fn blocks(rows: bool) -> TileGraphBuilder {
    let mut shards = vec![];
    for value in 0..2 {
        for part in 0..2 {
            shards.push(LowShard {
                id: LowShardId::from_index(2 * value + part),
                tile: if value == 0 { part as u16 } else { 4 * part as u16 },
                tensor_type: tensor_type(2),
                extents: half(rows == (value == 0), part),
                definition: ShardDefinition::Value(MidValueId::from_index(value)),
            });
        }
    }
    let views = |range: std::ops::Range<usize>| ViewList {
        views: shards[range]
            .iter()
            .map(|shard| ShardView { shard: shard.id, extents: shard.extents.clone() })
            .collect(),
    };
    let bindings = vec![views(0..2), views(2..4)];
    TileGraphBuilder {
        tile_count: 8,
        shards,
        types: vec![tensor_type(2), tensor_type(2)],
        bindings,
        phases: vec![],
        kernel_runs: vec![],
        local_copies: vec![],
        operations: vec![],
    }
}

fn carry(
    rows: bool,
    policy: CopyPolicy,
    packing: PackingPolicy,
) -> Result<TileGraphBuilder, ExpansionError> {
    let mut graph = blocks(rows);
    graph.lower_copies(
        &device(),
        &vec![CopyRequest {
            provenance: WorkProvenance {
                operation: None,
                value: Some(MidValueId::from_index(1)),
                reason: WorkReason::LayoutRearrangement,
            },
            inputs: vec![MidValueId::from_index(0)],
            results: vec![MidValueId::from_index(1)],
            view: None,
            offsets: vec![],
            policy,
            packing,
        }],
    )?;
    Ok(graph)
}

type Memory = BTreeMap<(LowShardId, u32), (u32, u32)>;

fn copy_bytes(memory: &mut Memory, copy: &LocalCopy) {
    let (rows, bytes, source_stride, destination_stride) = match copy.pattern {
        LocalCopyPattern::Contiguous => (1, copy.bytes, 0, 0),
        LocalCopyPattern::Strided { rows, row_bytes, source_stride, destination_stride } => {
            (rows, row_bytes, source_stride, destination_stride)
        }
    };
    for row in 0..rows {
        for byte in 0..bytes {
            let from = (copy.source, copy.source_offset + row * source_stride + byte);
            let to = (copy.destination, copy.destination_offset + row * destination_stride + byte);
            if let Some(element) = memory.get(&from).copied() {
                memory.insert(to, element);
            }
        }
    }
}

fn exchange_bytes(graph: &TileGraphBuilder, memory: &mut Memory, phase: usize) {
    let before = memory.clone();
    for transfer in &graph.phases[phase].transfers {
        let bytes = |view: &ShardView| {
            graph
                .spans(&device(), view, transfer.order)
                .unwrap()
                .iter()
                .flat_map(|span| (span.offset..span.offset + span.bytes).collect::<Vec<_>>())
                .collect::<Vec<_>>()
        };
        let source = bytes(&transfer.source);
        for destination in &transfer.destinations {
            let target = bytes(destination);
            assert_eq!(source.len(), target.len());
            for (&a, b) in source.iter().zip(target) {
                if let Some(element) = before.get(&(transfer.source.shard, a)).copied() {
                    memory.insert((destination.shard, b), element);
                }
            }
        }
    }
}

/// What a block is to hold: the coordinates of each of its elements, by offset.
fn contents(block: &LowShard) -> Vec<(u32, u32)> {
    let (rows, columns) = (&block.extents[0], &block.extents[1]);
    (rows.start..rows.logical_end)
        .flat_map(|row| (columns.start..columns.logical_end).map(move |column| (row, column)))
        .collect()
}

/// Carries out all copies and exchanges, on memory that holds the first value.
fn execute(graph: &TileGraphBuilder) -> Memory {
    let mut memory = Memory::new();
    for block in &graph.shards[..2] {
        for (offset, element) in contents(block).into_iter().enumerate() {
            memory.insert((block.id, offset as u32), element);
        }
    }
    for operation in &graph.operations {
        match operation {
            BlockOperation::Copy { tile, copy } => {
                let copy = &graph.local_copies[copy.index() as usize];
                assert_eq!(graph.shards[copy.source.index() as usize].tile, *tile);
                assert_eq!(graph.shards[copy.destination.index() as usize].tile, *tile);
                copy_bytes(&mut memory, copy);
            }
            BlockOperation::Exchange(id) => {
                exchange_bytes(graph, &mut memory, id.index() as usize);
            }
            _ => {}
        }
    }
    memory
}

#[test]
fn every_copy_reaches_its_block() {
    for rows in [true, false] {
        for policy in [CopyPolicy::Automatic, CopyPolicy::StageLogicalThenTransform] {
            let graph = carry(rows, policy, PackingPolicy::Automatic).unwrap();
            assert_eq!(graph.phases.len(), 1);
            let memory = execute(&graph);
            for block in &graph.shards[2..4] {
                for (offset, element) in contents(block).into_iter().enumerate() {
                    assert_eq!(memory.get(&(block.id, offset as u32)), Some(&element));
                }
            }
        }
    }
}

#[test]
fn staged_blocks_are_unloaded_on_their_tiles() {
    let policy = CopyPolicy::StageLogicalThenTransform;
    let graph = carry(false, policy, PackingPolicy::Staged).unwrap();
    let scratch = graph.shards[4..]
        .iter()
        .filter(|shard| shard.definition == ShardDefinition::Staging)
        .map(|shard| shard.tile)
        .collect::<Vec<_>>();
    assert!(scratch.contains(&0) && scratch.contains(&4));
    let memory = execute(&graph);
    for block in &graph.shards[2..4] {
        for (offset, element) in contents(block).into_iter().enumerate() {
            assert_eq!(memory.get(&(block.id, offset as u32)), Some(&element));
        }
    }
}

#[test]
fn copies_of_bytes_in_place_take_no_scratch_storage() {
    assert_eq!(
        carry(false, CopyPolicy::Automatic, PackingPolicy::Staged).err(),
        Some(ExpansionError::InvalidCopyPlan),
    );
}
