use ipu_codegen::blocks::{ExpansionError, TileGraphBuilder};
use ipu_codegen::kernels::narrow_gemm_matrix_view;
use ipu_codegen::linear::Linear;
use ipu_codegen::low::{
    LowLoweringError, LowShard, LowShardId, ShardDefinition, ShardView, WorkProvenance, WorkReason,
};
use ipu_codegen::mid::{AccumulationPrecision, GemmMode, MidValueId};
use ipu_codegen::products::{ContractionAxes, Product};
use ipu_codegen::target::TargetCosts;
use ipu_codegen::tensor::{
    AmpOrder, BlockMajorOrder, ElementOrder, Layout, MemoryClass, Precision, ShardExtent,
    TensorAxis, TensorFormat, TensorShape, TensorTiling, TensorType,
};

fn extent(axis: u16, start: u32, end: u32) -> ShardExtent {
    ShardExtent { axis, start, logical_end: end, physical_end: end }
}

#[test]
fn singleton_batch_shards_do_not_broadcast_non_singleton_dimensions() {
    let mut view = ShardView {
        shard: LowShardId::from_index(0),
        extents: vec![extent(0, 3, 4), extent(1, 0, 16), extent(2, 0, 16)],
    };
    let shape = [8, 16, 16];
    assert!(narrow_gemm_matrix_view(&mut view, &shape, &shape, &[2]).is_err());
    narrow_gemm_matrix_view(&mut view, &shape, &shape, &[3]).unwrap();
    assert_eq!(view.extents[0].start, 3);
    view.extents[0] = extent(0, 0, 1);
    narrow_gemm_matrix_view(&mut view, &[1, 16, 16], &shape, &[7]).unwrap();
    assert_eq!(view.extents[0].start, 0);
}

#[test]
fn vectors_are_not_matrices() {
    let mut view = ShardView { shard: LowShardId::from_index(0), extents: vec![extent(0, 0, 4)] };
    assert_eq!(
        narrow_gemm_matrix_view(&mut view, &[4], &[4], &[]),
        Err(LowLoweringError::InvalidOperatorPlan),
    );
}

fn matrices(id: u32, count: u32, order: ElementOrder) -> LowShard {
    LowShard {
        id: LowShardId::from_index(id),
        tile: 0,
        tensor_type: TensorType {
            shape: TensorShape(vec![count, 16, 16]),
            format: TensorFormat {
                precision: Precision::F16,
                layout: Layout {
                    order,
                    tiling: TensorTiling::replicated(1),
                    memory_class: MemoryClass::Ipu21Standard,
                },
            },
        },
        extents: vec![extent(0, 0, count), extent(1, 0, 16), extent(2, 0, 16)],
        definition: ShardDefinition::Value(MidValueId::from_index(id)),
    }
}

fn device() -> Linear {
    Linear {
        costs: TargetCosts {
            kernel_launch_cycles: 100,
            logical_fragment_cycles: 6,
            max_transfer_words: 63,
            interleaved_region_bytes: 0x8000,
        },
    }
}

fn product() -> Product {
    Product {
        multiply: Precision::F16,
        accumulate: AccumulationPrecision::F32,
        mode: GemmMode::Initialize,
        inner_block: 16,
        output_columns: 16,
        axes: ContractionAxes {
            left_inner: TensorAxis::FromEnd(1),
            right_inner: TensorAxis::FromEnd(2),
            output_column: TensorAxis::FromEnd(1),
            valid_inner: None,
            valid_columns: None,
        },
    }
}

fn batch(batches: u32) -> TileGraphBuilder {
    let packed = ElementOrder::BlockMajor(BlockMajorOrder::Matrix {
        row_block: 16,
        column_block: 16,
    });
    TileGraphBuilder {
        tile_count: 1,
        shards: vec![
            matrices(0, batches, ElementOrder::Amp(AmpOrder::Left)),
            matrices(1, 1, packed),
            matrices(2, batches, packed),
        ],
        types: vec![],
        bindings: vec![],
        phases: vec![],
        kernel_runs: vec![],
        local_copies: vec![],
        operations: vec![],
    }
}

fn provenance() -> WorkProvenance {
    WorkProvenance {
        operation: None,
        value: Some(MidValueId::from_index(2)),
        reason: WorkReason::OperatorKernel,
    }
}

fn call(graph: &mut TileGraphBuilder, product: Product) -> Result<(), ExpansionError> {
    let inputs = vec![
        graph.full_view(LowShardId::from_index(0)).unwrap(),
        graph.full_view(LowShardId::from_index(1)).unwrap(),
    ];
    graph.product_calls(&device(), provenance(), 0, &inputs, LowShardId::from_index(2), product)
}

#[test]
fn batched_product_calls_count_only_their_own_arithmetic() {
    for batches in 1..=4 {
        let mut graph = batch(batches);
        call(&mut graph, product()).unwrap();
        let mut flops = [0; 2];
        for run in &graph.kernel_runs {
            let counted = run.product_flops.unwrap();
            flops[0] += counted.0;
            flops[1] += counted.1;
            assert!(counted.0 <= counted.1);
        }
        let expected = 2 * u64::from(batches) * 16 * 16 * 16;
        assert_eq!(flops, [expected, expected]);
    }
}

#[test]
fn padding_is_no_useful_arithmetic() {
    let mut graph = batch(1);
    let mut padded = product();
    padded.axes.valid_inner = Some(12);
    padded.axes.valid_columns = Some(10);
    call(&mut graph, padded).unwrap();
    let flops = graph
        .kernel_runs
        .iter()
        .map(|run| run.product_flops.unwrap())
        .fold((0, 0), |sum, counted| (sum.0 + counted.0, sum.1 + counted.1));
    assert_eq!(flops, (2 * 16 * 12 * 10, 2 * 16 * 16 * 16));
}

#[test]
fn products_without_blocks_are_rejected() {
    let mut graph = batch(1);
    let mut empty = product();
    empty.inner_block = 0;
    assert_eq!(call(&mut graph, empty), Err(ExpansionError::InvalidOperatorPlan));
}
