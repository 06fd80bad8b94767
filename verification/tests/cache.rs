use ipu_codegen::blocks::{CopyOrder, ExpansionError, TileGraphBuilder};
use ipu_codegen::cache::{CopyOperation, CopyPattern, ExpansionCache};
use ipu_codegen::linear::Linear;
use ipu_codegen::low::{LowShard, LowShardId, ShardDefinition, ShardView};
use ipu_codegen::target::TargetCosts;
use ipu_codegen::tensor::{
    AxisTiling, ElementOrder, Layout, MemoryClass, Precision, ShardExtent, StorageError, TensorAxis,
    TensorFormat, TensorShape, TensorTiling, TensorType,
};

fn device() -> Linear {
    Linear {
        costs: TargetCosts {
            kernel_launch_cycles: 100,
            logical_fragment_cycles: 6,
            max_transfer_words: 63,
            interleaved_region_bytes: 0x8000,
        },
    }
}

fn row_sharded(tiles: u16) -> Layout {
    Layout {
        order: ElementOrder::RowMajor,
        tiling: TensorTiling {
            tile_count: tiles,
            axes: vec![AxisTiling {
                axis: TensorAxis::FromStart(0),
                partitions: tiles,
                block_size: 1,
                padding_multiple: 1,
                shard_padding_multiple: 1,
            }],
        },
        memory_class: MemoryClass::Ipu21Standard,
    }
}

fn extent(axis: u16, start: u32, end: u32) -> ShardExtent {
    ShardExtent { axis, start, logical_end: end, physical_end: end }
}

fn block(id: u32, tile: u16, shape: [u32; 2], precision: Precision, extents: Vec<ShardExtent>) -> LowShard {
    LowShard {
        id: LowShardId::from_index(id),
        tile,
        tensor_type: TensorType {
            shape: TensorShape(shape.to_vec()),
            format: TensorFormat { precision, layout: row_sharded(1) },
        },
        extents,
        definition: ShardDefinition::Staging,
    }
}

fn graph(shards: Vec<LowShard>) -> TileGraphBuilder {
    TileGraphBuilder {
        tile_count: 8,
        shards,
        types: vec![],
        bindings: vec![],
        phases: vec![],
        kernel_runs: vec![],
        local_copies: vec![],
        operations: vec![],
    }
}

fn mapping(copies: &[CopyOperation<()>]) -> Vec<(u32, u32)> {
    copies
        .iter()
        .flat_map(|copy| {
            let (rows, bytes, source_stride, destination_stride) = match copy.pattern {
                CopyPattern::Contiguous => (1, copy.bytes, 0, 0),
                CopyPattern::Strided { rows, row_bytes, source_stride, destination_stride } => {
                    (rows, row_bytes, source_stride, destination_stride)
                }
            };
            let (source, destination) = (copy.source_offset, copy.destination_offset);
            (0..rows).flat_map(move |row| {
                (0..bytes).map(move |byte| {
                    (
                        source + row * source_stride + byte,
                        destination + row * destination_stride + byte,
                    )
                })
            })
        })
        .collect()
}

#[test]
fn copy_fragments_share_relative_geometry_across_tiles_and_origins() {
    let mut cache = ExpansionCache::new();
    let mut first: Option<Vec<(u32, u32)>> = None;
    for shift in [0, 16] {
        let shards = (0..2)
            .map(|id| {
                block(
                    id,
                    id as u16,
                    [2, 64],
                    Precision::F16,
                    vec![extent(0, 0, 2), extent(1, shift, shift + 8)],
                )
            })
            .collect::<Vec<_>>();
        let view = |id: u32| ShardView {
            shard: LowShardId::from_index(id),
            extents: vec![extent(0, 0, 2), extent(1, shift + 2, shift + 6)],
        };
        let (source, destination) = (view(0), view(1));
        let result = cache
            .copy(&device(), &graph(shards), &source, &destination, CopyOrder::Semantic)
            .unwrap();
        let bytes = mapping(&result.copies);
        assert_eq!(bytes.len(), 16);
        assert_eq!(bytes[0], (4, 4));
        if let Some(first) = &first {
            assert_eq!(first, &bytes);
        } else {
            first = Some(bytes);
        }
    }
    assert_eq!(cache.stats(), (1, 1, 1));
}

#[test]
fn destination_geometry_ignores_ownership_but_tracks_byte_interpretation() {
    let views = |shards: &Vec<LowShard>| {
        shards
            .iter()
            .map(|shard| ShardView { shard: shard.id, extents: shard.extents.clone() })
            .collect::<Vec<_>>()
    };
    let shards = (0..2)
        .map(|id| {
            block(
                id,
                id as u16,
                [2, 64],
                Precision::F16,
                vec![extent(0, 0, 2), extent(1, 0, 64)],
            )
        })
        .collect::<Vec<_>>();
    let mut listed = views(&shards);
    let destination = listed.pop().unwrap();
    let source = listed.pop().unwrap();
    let mappings = vec![(source, destination)];
    let mut program = graph(shards);
    let mut cache = ExpansionCache::new();
    let id = LowShardId::from_index(1);
    let before = cache
        .geometry(&device(), &program, &mappings, id, CopyOrder::Semantic)
        .unwrap();
    for shard in &mut program.shards {
        shard.tile += 2;
        shard.tensor_type.shape.0[0] *= 2;
        shard.tensor_type.format.layout = row_sharded(2);
        shard.tensor_type.format.layout.memory_class = MemoryClass::Ipu21Interleaved;
    }
    let remapped = cache
        .geometry(&device(), &program, &mappings, id, CopyOrder::Semantic)
        .unwrap();
    assert_eq!(before, remapped);
    assert_eq!(cache.geometry_stats(), (1, 1, 1));
    for shard in &mut program.shards {
        shard.tensor_type.format.precision = Precision::F32;
    }
    let wider = cache
        .geometry(&device(), &program, &mappings, id, CopyOrder::Semantic)
        .unwrap();
    assert_ne!(before, wider);
    assert_eq!(wider.bytes, before.bytes * 2);
    assert_eq!(cache.geometry_stats(), (2, 1, 2));
}

#[test]
fn copies_between_values_that_share_storage_stay_in_order() {
    let rectangle = || vec![extent(0, 0, 48), extent(1, 0, 96)];
    for precision in [Precision::F16, Precision::F32] {
        let width = if precision == Precision::F16 { 2 } else { 4 };
        let mut program = graph(vec![
            block(0, 0, [48, 96], precision, rectangle()),
            block(1, 0, [48, 96], precision, rectangle()),
        ]);
        let view = |id: u32| ShardView {
            shard: LowShardId::from_index(id),
            extents: vec![extent(0, 0, 32), extent(1, 0, 64)],
        };
        let (source, destination) = (view(0), view(1));
        let expected = (0..32)
            .flat_map(|row| (0..64 * width).map(move |byte| row * 96 * width + byte))
            .map(|byte| (byte, byte))
            .collect::<Vec<_>>();
        let mut cache = ExpansionCache::new();
        let separate = cache
            .copy(&device(), &program, &source, &destination, CopyOrder::Semantic)
            .unwrap();
        assert_eq!(mapping(&separate.copies), expected);
        for offset in [0, 64] {
            program.shards[1].definition = ShardDefinition::ShiftedAlias {
                source: LowShardId::from_index(0),
                offset,
            };
            let shared = cache
                .copy(&device(), &program, &source, &destination, CopyOrder::Semantic)
                .unwrap();
            assert_eq!(mapping(&shared.copies), expected);
        }
    }
}

#[test]
fn a_disabled_cache_keeps_nothing() {
    let program = graph(vec![
        block(0, 0, [2, 8], Precision::F16, vec![extent(0, 0, 2), extent(1, 0, 8)]),
        block(1, 1, [2, 8], Precision::F16, vec![extent(0, 0, 2), extent(1, 0, 8)]),
    ]);
    let view = |id: u32| ShardView {
        shard: LowShardId::from_index(id),
        extents: vec![extent(0, 0, 2), extent(1, 0, 8)],
    };
    let mut cache = ExpansionCache::disabled();
    for _ in 0..2 {
        let copies = cache
            .copy(&device(), &program, &view(0), &view(1), CopyOrder::Physical)
            .unwrap();
        assert_eq!(mapping(&copies.copies).len(), 32);
    }
    assert_eq!(cache.stats(), (0, 0, 0));
}

#[test]
fn unknown_blocks_and_foreign_orders_are_errors() {
    let mut program = graph(vec![
        block(0, 0, [2, 8], Precision::F16, vec![extent(0, 0, 2), extent(1, 0, 8)]),
        block(1, 1, [2, 8], Precision::F16, vec![extent(0, 0, 2), extent(1, 0, 8)]),
    ]);
    let view = |id: u32| ShardView {
        shard: LowShardId::from_index(id),
        extents: vec![extent(0, 0, 2), extent(1, 0, 8)],
    };
    let mut cache = ExpansionCache::new();
    assert!(cache
        .copy(&device(), &program, &view(0), &view(9), CopyOrder::Semantic)
        .is_err());
    program.shards[1].tensor_type.format.layout.order =
        ElementOrder::Amp(ipu_codegen::tensor::AmpOrder::Left);
    assert_eq!(
        cache.copy(&device(), &program, &view(0), &view(1), CopyOrder::Semantic).err(),
        Some(ExpansionError::Storage(StorageError::WrongShard)),
    );
}

#[test]
fn results_are_found_under_the_fingerprint_that_they_are_kept_under() {
    let rectangle = || vec![extent(0, 0, 2), extent(1, 0, 64)];
    let program = graph(vec![
        block(0, 0, [2, 64], Precision::F16, rectangle()),
        block(1, 1, [2, 64], Precision::F16, rectangle()),
    ]);
    let view = |id: u32, end: u32| ShardView {
        shard: LowShardId::from_index(id),
        extents: vec![extent(0, 0, 2), extent(1, 0, end)],
    };
    let mut cache = ExpansionCache::new();
    let copy = |cache: &mut ExpansionCache, fingerprint: u64, end: u32| {
        let list = cache
            .copy_under(
                fingerprint,
                &device(),
                &program,
                &view(0, end),
                &view(1, end),
                CopyOrder::Semantic,
            )
            .unwrap();
        mapping(&list.copies).len() as u32
    };
    assert_eq!(copy(&mut cache, 7, 4), 16);
    assert_eq!(cache.stats(), (1, 0, 1));
    assert_eq!(copy(&mut cache, 7, 4), 16);
    assert_eq!(cache.stats(), (1, 1, 1));
    assert_eq!(copy(&mut cache, 7, 8), 32);
    assert_eq!(cache.stats(), (2, 1, 2));
    assert_eq!(copy(&mut cache, 7, 8), 32);
    assert_eq!(copy(&mut cache, 7, 4), 16);
    assert_eq!(cache.stats(), (2, 3, 2));

    let id = LowShardId::from_index(1);
    let geometry = |cache: &mut ExpansionCache, end: u32| {
        cache
            .geometry_under(
                7,
                &device(),
                &program,
                &vec![(view(0, end), view(1, end))],
                id,
                CopyOrder::Semantic,
            )
            .unwrap()
    };
    let first = geometry(&mut cache, 4);
    assert!(first.padding);
    assert_eq!(geometry(&mut cache, 4), first);
    assert_eq!(cache.geometry_stats(), (1, 1, 1));
    assert!(!geometry(&mut cache, 64).padding);
    assert_eq!(cache.geometry_stats(), (2, 1, 2));
}

#[test]
fn searches_that_fail_keep_nothing() {
    let mut program = graph(vec![
        block(0, 0, [2, 8], Precision::F16, vec![extent(0, 0, 2), extent(1, 0, 8)]),
        block(1, 1, [2, 8], Precision::F16, vec![extent(0, 0, 2), extent(1, 0, 8)]),
    ]);
    program.shards[1].tensor_type.format.layout.order =
        ElementOrder::Amp(ipu_codegen::tensor::AmpOrder::Left);
    let view = |id: u32| ShardView {
        shard: LowShardId::from_index(id),
        extents: vec![extent(0, 0, 2), extent(1, 0, 4)],
    };
    let mut cache = ExpansionCache::new();
    for misses in 1..3 {
        assert!(cache
            .copy_under(3, &device(), &program, &view(0), &view(1), CopyOrder::Semantic)
            .is_err());
        assert_eq!(cache.stats(), (0, 0, misses));
    }
}
