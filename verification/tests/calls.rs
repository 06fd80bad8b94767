use ipu_codegen::call::{
    attention_shape, gemm_rows, input_matrix_extent, matrix_count, matrix_extent, KernelAbiError,
};
use ipu_codegen::low::{KernelOperand, LowShardId, ShardView};
use ipu_codegen::mid::{AccumulationPrecision, AttentionOptions, KernelSpec, TileKernelSpec};
use ipu_codegen::tensor::{AmpOrder, ElementOrder, ShardExtent};

fn view(widths: &[(u32, u32)]) -> ShardView {
    ShardView {
        shard: LowShardId::from_index(0),
        extents: widths
            .iter()
            .enumerate()
            .map(|(axis, &(logical, physical))| ShardExtent {
                axis: axis as u16,
                start: 3,
                logical_end: 3 + logical,
                physical_end: 3 + physical,
            })
            .collect(),
    }
}

#[test]
fn rows_of_a_product_join_all_matrices() {
    let output = view(&[(2, 2), (5, 8), (16, 16)]);
    assert_eq!(gemm_rows(&output, ElementOrder::RowMajor).unwrap(), 16);
    assert!(matches!(
        gemm_rows(&view(&[]), ElementOrder::Amp(AmpOrder::Output)),
        Err(KernelAbiError::MissingGemmRows)
    ));
}

#[test]
fn matrices_are_measured_with_and_without_padding() {
    let output = view(&[(5, 8), (10, 16)]);
    assert_eq!(matrix_extent(&output, true, false).unwrap(), 5);
    assert_eq!(matrix_extent(&output, false, false).unwrap(), 8);
    assert_eq!(matrix_extent(&output, true, true).unwrap(), 10);
    assert_eq!(matrix_extent(&output, false, true).unwrap(), 16);
    assert!(matches!(
        matrix_extent(&view(&[(4, 4)]), true, false),
        Err(KernelAbiError::RequirementMismatch)
    ));
    let operands = vec![KernelOperand::of(view(&[(3, 3), (5, 8), (10, 16)]))];
    assert_eq!(input_matrix_extent(&operands, true, false).unwrap(), 5);
    assert_eq!(matrix_count(&operands).unwrap(), 3);
}

fn attention(causal: bool, scale_bits: Option<u32>) -> TileKernelSpec {
    KernelSpec::FlashAttention {
        options: AttentionOptions { causal, scale_bits },
        accumulate: AccumulationPrecision::F32,
    }
}

#[test]
fn attention_takes_its_shape_from_its_operands() {
    let operands = || {
        vec![
            KernelOperand::of(view(&[(2, 2), (7, 8), (16, 16)])),
            KernelOperand::of(view(&[(2, 2), (9, 16), (16, 16)])),
            KernelOperand::of(view(&[(2, 2), (9, 16), (32, 32)])),
        ]
    };
    let shape = attention_shape(&attention(false, Some(5)), &operands()).unwrap();
    assert_eq!((shape.matrices, shape.query_rows, shape.key_rows), (2, 8, 16));
    assert_eq!((shape.query_dimension, shape.value_dimension), (16, 32));
    assert_eq!(shape.scale_bits, Some(5));
    let mut two = operands();
    two.pop();
    assert!(attention_shape(&attention(false, None), &two).is_err());
    assert!(attention_shape(&KernelSpec::Add, &operands()).is_err());
}
