use ipu_codegen::copies::shard_storage_bytes;
use ipu_codegen::gemm_run::GemmRuns;
use ipu_codegen::linear::Linear;
use ipu_codegen::low::{
    ExchangePhaseId, KernelRun, KernelRunMetadata, LocalCopyPattern, LowLoweringError, LowProgram, RepeatRun,
    ShardDefinition, TileKernel, TileWork, TileWorkList, TileWorkRef, WorkReason,
};
use ipu_codegen::mid::{
    AccumulationPrecision, ConversionPlan, ConversionStrategy, GemmDistribution, GemmMode,
    GemmOrientation, GemmWeightLoad, GraphInputKind, KernelSpec, LocalOperandStaging, MidGraph, MidInput, MidOperation,
    MidOperationKind, MidOperator, MidRegion, MidRepeat, MidValue, MidValueId, OperandMaterialization,
    OperandRequirement,
    OperationId, OperatorDispatch, OperatorPlan, OperatorRequirements, OutputAliasing,
    PipelineConfig, PointwiseInputMapping, ReductionStaging, TileKernelSpec,
};
use ipu_codegen::model::Model;
use ipu_codegen::program::lower_to_tiles;
use ipu_codegen::reduction_plan::Partitions;
use ipu_codegen::reduction_sum::Division;
use ipu_codegen::state::LoweringState;
use ipu_codegen::target::TargetCosts;
use ipu_codegen::tensor::{
    AmpOrder, AxisTiling, ElementOrder, Layout, LayoutError, MemoryClass, Precision, StorageError,
    TensorAxis, TensorFormat, TensorShape, TensorTiling, TensorType,
};

const CASES: usize = 32;

fn device() -> Linear {
    Linear {
        costs: TargetCosts {
            kernel_launch_cycles: 100,
            logical_fragment_cycles: 6,
            max_transfer_words: 63,
            interleaved_region_bytes: 0x8000,
        },
    }
}

fn tiling(axis: TensorAxis, partitions: u16, block_size: u32) -> AxisTiling {
    AxisTiling {
        axis,
        partitions,
        block_size,
        padding_multiple: 1,
        shard_padding_multiple: 1,
    }
}

fn layout(order: ElementOrder, tile_count: u16, axes: Vec<AxisTiling>) -> Layout {
    Layout {
        order,
        tiling: TensorTiling { tile_count, axes },
        memory_class: MemoryClass::Ipu21Standard,
    }
}

fn in_format(layout: Layout) -> TensorFormat {
    TensorFormat { precision: Precision::F16, layout }
}

/// Rows divided over the tiles.
fn format(tiles: u16) -> TensorFormat {
    in_format(layout(
        ElementOrder::RowMajor,
        tiles,
        vec![tiling(TensorAxis::FromStart(0), tiles, 1)],
    ))
}

fn value(id: u32, shape: &[u32], format: TensorFormat) -> MidValue {
    MidValue {
        id: MidValueId::from_index(id),
        tensor_type: TensorType { shape: TensorShape(shape.to_vec()), format },
        origin: MidValueId::from_index(id),
        storage_group: MidValueId::from_index(id),
    }
}

fn ids(indices: &[u32]) -> Vec<MidValueId> {
    indices.iter().map(|&index| MidValueId::from_index(index)).collect()
}

fn input(name: &str, kind: GraphInputKind, id: u32) -> MidInput {
    MidInput { name: name.to_string(), kind, value: MidValueId::from_index(id) }
}

fn requirements(inputs: &[&TensorFormat], output: &TensorFormat) -> OperatorRequirements {
    OperatorRequirements {
        inputs: inputs.iter().map(|format| OperandRequirement::new(format.duplicate(), 8)).collect(),
        output: OperandRequirement::new(output.duplicate(), 8),
        output_aliasing: OutputAliasing::MayAliasInputs((0..inputs.len() as u16).collect()),
        memory_relations: vec![],
    }
}

fn operation(
    operator: MidOperator,
    dispatch: OperatorDispatch,
    requirements: OperatorRequirements,
    inputs: &[u32],
    result: u32,
) -> MidOperation {
    MidOperation {
        source: Some(OperationId(result)),
        kind: MidOperationKind::Operator(operator),
        inputs: ids(inputs),
        results: ids(&[result]),
        operator_plan: Some(OperatorPlan {
            operator,
            dispatch,
            requirements,
            deferred_output: None,
            deferred_inputs: vec![],
        }),
        conversion_plan: None,
    }
}

fn pointwise(
    operator: MidOperator,
    mapping: PointwiseInputMapping,
    inputs: &[u32],
    formats: &[&TensorFormat],
    result: u32,
    output: &TensorFormat,
) -> MidOperation {
    let kernel = if operator == MidOperator::Add { KernelSpec::Add } else { KernelSpec::Gelu };
    operation(
        operator,
        OperatorDispatch::Pointwise { kernel, input_mapping: mapping },
        requirements(formats, output),
        inputs,
        result,
    )
}

fn retile(from: &TensorFormat, to: &TensorFormat, input: u32, result: u32) -> MidOperation {
    MidOperation {
        source: None,
        kind: MidOperationKind::Rearrange,
        inputs: ids(&[input]),
        results: ids(&[result]),
        operator_plan: None,
        conversion_plan: Some(ConversionPlan {
            strategy: ConversionStrategy::DirectRetile,
            kernel: KernelSpec::Rearrange {
                from: from.layout.duplicate(),
                to: to.layout.duplicate(),
            },
            input: OperandRequirement::new(from.duplicate(), 8),
            output: OperandRequirement::new(to.duplicate(), 8),
        }),
    }
}

fn config(tile_count: u16) -> PipelineConfig {
    PipelineConfig { tile_count, diagnostic_checkpoints: false }
}

fn lower(graph: &MidGraph, tiles: u16) -> LowProgram {
    let program = lower_to_tiles(&device(), graph, &config(tiles)).unwrap();
    assert_sound(&program);
    program
}

fn kernels<'a>(program: &'a LowProgram, list: &'a TileWorkList) -> Vec<&'a KernelRun> {
    program
        .work(list)
        .into_iter()
        .filter_map(|work| match work {
            TileWorkRef::Kernel(run) => Some(run),
            _ => None,
        })
        .collect()
}

fn repeats<'a>(program: &'a LowProgram, list: &'a TileWorkList) -> Vec<&'a RepeatRun> {
    program
        .work(list)
        .into_iter()
        .filter_map(|work| match work {
            TileWorkRef::Repeat(repeat) => Some(repeat),
            _ => None,
        })
        .collect()
}

fn contains_phase(program: &LowProgram, list: &TileWorkList, phase: ExchangePhaseId) -> bool {
    program.work(list).into_iter().any(|work| match work {
        TileWorkRef::Exchange(candidate) => candidate == phase,
        TileWorkRef::Repeat(repeat) => contains_phase(program, &repeat.body, phase),
        TileWorkRef::Kernel(_) | TileWorkRef::LocalCopy(_) | TileWorkRef::Checkpoint(..) => false,
    })
}

fn exchanges(list: &TileWorkList) -> Vec<ExchangePhaseId> {
    list.work
        .iter()
        .filter_map(|work| match work {
            TileWork::Exchange(id) => Some(*id),
            _ => None,
        })
        .collect()
}

/// What holds of every schedule.
fn assert_sound(program: &LowProgram) {
    for (index, shard) in program.shards.iter().enumerate() {
        assert_eq!(shard.id.index() as usize, index);
    }
    for (index, phase) in program.exchange_phases.iter().enumerate() {
        assert_eq!(phase.id.index() as usize, index);
        assert!(!phase.transfers.is_empty());
        assert!(program.tiles.iter().all(|tile| contains_phase(program, tile, phase.id)));
    }
    assert_eq!(program.tiles.len(), usize::from(program.tile_count));
    for (index, list) in program.tiles.iter().enumerate() {
        assert_eq!(usize::from(list.tile), index);
        assert_eq!(exchanges(list), exchanges(&program.tiles[0]));
        assert_resident(program, list);
    }
}

fn assert_resident(program: &LowProgram, list: &TileWorkList) {
    for run in kernels(program, list) {
        assert_eq!(program.shards[run.output.shard.index() as usize].tile, list.tile);
        assert!(run
            .inputs
            .iter()
            .flat_map(|operand| &operand.views)
            .all(|view| program.shards[view.shard.index() as usize].tile == list.tile));
    }
    for work in program.work(list) {
        if let TileWorkRef::LocalCopy(copy) = work {
            assert_eq!(program.shards[copy.source.index() as usize].tile, list.tile);
            assert_eq!(program.shards[copy.destination.index() as usize].tile, list.tile);
        }
    }
    for repeat in repeats(program, list) {
        assert_eq!(repeat.body.tile, list.tile);
        assert_resident(program, &repeat.body);
    }
}

#[test]
fn randomized_pointwise_dispatch_skips_empty_output_shards() {
    let mut random = fastrand::Rng::with_seed(0x656d_7074);
    for case in 0..CASES {
        let tiles = random.u16(2..=32);
        let rows = random.u32(1..u32::from(tiles));
        let columns = random.u32(1..=32) * 2;
        let graph = MidGraph {
            values: vec![
                value(0, &[rows, columns], format(tiles)),
                value(1, &[rows, columns], format(tiles)),
            ],
            inputs: vec![input("input", GraphInputKind::Host, 0)],
            operations: vec![pointwise(
                MidOperator::Gelu,
                PointwiseInputMapping::TileLocal,
                &[0],
                &[&format(tiles)],
                1,
                &format(tiles),
            )],
            outputs: ids(&[1]),
        };
        let low = lower(&graph, tiles);
        let runs = low.tiles.iter().flat_map(|tile| kernels(&low, tile)).collect::<Vec<_>>();
        assert_eq!(runs.len(), rows as usize, "random case {case}");
        assert!(runs.iter().all(|run| {
            run.output.extents.iter().all(|extent| extent.start < extent.physical_end)
        }));
    }
}

#[test]
fn randomized_schedules_make_kernel_operands_resident() {
    let mut random = fastrand::Rng::with_seed(0x6c6f_7721);
    for case in 0..CASES {
        let tiles = 1_u16 << random.u32(0..=3);
        let rows = u32::from(tiles) * random.u32(1..=8) * 16;
        let columns = random.u32(1..=8) * 16;
        let graph = MidGraph {
            values: (0..3).map(|id| value(id, &[rows, columns], format(tiles))).collect(),
            inputs: vec![
                input("left", GraphInputKind::Host, 0),
                input("right", GraphInputKind::Host, 1),
            ],
            operations: vec![pointwise(
                MidOperator::Add,
                PointwiseInputMapping::BroadcastToOutput,
                &[0, 1],
                &[&format(tiles), &format(tiles)],
                2,
                &format(tiles),
            )],
            outputs: ids(&[2]),
        };
        let low = lower(&graph, tiles);

        assert_eq!(low.tiles.len(), usize::from(tiles), "case {case}");
        for tile in &low.tiles {
            for work in low.work(tile) {
                if let TileWorkRef::Kernel(run) = work {
                    assert_eq!(low.shards[run.output.shard.index() as usize].tile, tile.tile);
                    assert!(run
                        .inputs
                        .iter()
                        .flat_map(|operand| &operand.views)
                        .all(|view| low.shards[view.shard.index() as usize].tile == tile.tile));
                }
            }
        }
        for phase in &low.exchange_phases {
            assert!(low.tiles.iter().all(|tile| contains_phase(&low, tile, phase.id)));
            for transfer in &phase.transfers {
                assert!(transfer.destinations.iter().all(|destination| matches!(
                    low.shards[destination.shard.index() as usize].definition,
                    ShardDefinition::Value(_)
                        | ShardDefinition::ExchangeStaging
                        | ShardDefinition::LocalCopy(_)
                        | ShardDefinition::Staging
                )));
            }
        }
    }
}

#[test]
fn randomized_broadcast_adds_schedule_remote_singleton_views() {
    let mut random = fastrand::Rng::with_seed(0x6272_6463);
    for case in 0..CASES {
        let tiles = 1_u16 << random.u32(1..=3);
        let rows = u32::from(tiles) * random.u32(1..=8);
        let columns = random.u32(1..=8) * 16;
        let graph = MidGraph {
            values: vec![
                value(0, &[1, columns], format(tiles)),
                value(1, &[rows, columns], format(tiles)),
                value(2, &[rows, columns], format(tiles)),
            ],
            inputs: vec![
                input("bias", GraphInputKind::Host, 0),
                input("tensor", GraphInputKind::Host, 1),
            ],
            operations: vec![pointwise(
                MidOperator::Add,
                PointwiseInputMapping::BroadcastToOutput,
                &[0, 1],
                &[&format(tiles), &format(tiles)],
                2,
                &format(tiles),
            )],
            outputs: ids(&[2]),
        };
        let low = lower(&graph, tiles);

        assert!(
            low.exchange_phases
                .iter()
                .any(|phase| matches!(phase.provenance.reason, WorkReason::OperatorInputs)),
            "case {case}"
        );
        for tile in &low.tiles {
            let add = kernels(&low, tile)
                .into_iter()
                .find(|run| matches!(run.metadata.kernel, TileKernel::Planned(KernelSpec::Add)))
                .unwrap();
            assert_eq!(add.inputs[0].views[0].extents[0].logical_end, 1);
            assert_eq!(
                low.shards[add.inputs[0].views[0].shard.index() as usize].tile,
                tile.tile
            );
        }
    }
}

#[test]
fn randomized_tile_local_gelu_reorders_without_exchange() {
    let mut random = fastrand::Rng::with_seed(0x6765_6c75);
    for case in 0..CASES {
        let row_partitions = 1_u16 << random.u32(0..=3);
        let column_partitions = 1_u16 << random.u32(0..=3);
        let tiles = row_partitions * column_partitions;
        let rows = u32::from(row_partitions) * random.u32(1..=8);
        let columns = u32::from(column_partitions) * 64 * random.u32(1..=4);
        let grid = |order| {
            in_format(layout(
                ElementOrder::Amp(order),
                tiles,
                vec![
                    tiling(TensorAxis::FromEnd(2), row_partitions, 1),
                    tiling(TensorAxis::FromEnd(1), column_partitions, 64),
                ],
            ))
        };
        let (input_format, output_format) = (grid(AmpOrder::Output), grid(AmpOrder::Left));
        let graph = MidGraph {
            values: vec![
                value(0, &[rows, columns], grid(AmpOrder::Output)),
                value(1, &[rows, columns], grid(AmpOrder::Left)),
            ],
            inputs: vec![input("input", GraphInputKind::Host, 0)],
            operations: vec![pointwise(
                MidOperator::Gelu,
                PointwiseInputMapping::TileLocal,
                &[0],
                &[&input_format],
                1,
                &output_format,
            )],
            outputs: ids(&[1]),
        };
        let low = lower(&graph, tiles);
        assert!(low.exchange_phases.is_empty(), "random case {case}");
        for tile in &low.tiles {
            for run in kernels(&low, tile) {
                assert_eq!(
                    low.shards[run.inputs[0].views[0].shard.index() as usize].tile,
                    tile.tile
                );
                assert_eq!(low.shards[run.output.shard.index() as usize].tile, tile.tile);
            }
        }
    }
}

#[test]
fn randomized_same_order_retiles_exchange_into_final_values() {
    let mut random = fastrand::Rng::with_seed(0x6469_7265_6374_7265);
    for case in 0..CASES {
        let source_rows = 1_u16 << random.u32(0..=3);
        let source_columns = 1_u16 << random.u32(0..=3);
        let tiles = source_rows * source_columns;
        let rows = u32::from(source_rows.max(source_columns)) * random.u32(1..=4);
        let columns = u32::from(source_rows.max(source_columns)) * random.u32(1..=4) * 4;
        let grid = |row_partitions, column_partitions| {
            in_format(layout(
                ElementOrder::RowMajor,
                tiles,
                vec![
                    tiling(TensorAxis::FromEnd(2), row_partitions, 1),
                    tiling(TensorAxis::FromEnd(1), column_partitions, 4),
                ],
            ))
        };
        let input_format = grid(source_rows, source_columns);
        let target_format = grid(source_columns, source_rows);
        let graph = MidGraph {
            values: vec![
                value(0, &[rows, columns], input_format.duplicate()),
                value(1, &[rows, columns], target_format.duplicate()),
                value(2, &[rows, columns], target_format.duplicate()),
            ],
            inputs: vec![input("input", GraphInputKind::Host, 0)],
            operations: vec![
                retile(&input_format, &target_format, 0, 1),
                pointwise(
                    MidOperator::Gelu,
                    PointwiseInputMapping::TileLocal,
                    &[1],
                    &[&target_format],
                    2,
                    &target_format,
                ),
            ],
            outputs: ids(&[2]),
        };
        let low = lower(&graph, tiles);
        let conversion_phases = low
            .exchange_phases
            .iter()
            .filter(|phase| phase.provenance.reason == WorkReason::LayoutRearrangement)
            .collect::<Vec<_>>();
        assert_eq!(conversion_phases.is_empty(), source_rows == source_columns, "case {case}");
        for phase in conversion_phases {
            for destination in phase.transfers.iter().flat_map(|transfer| &transfer.destinations) {
                assert!(matches!(
                    low.shards[destination.shard.index() as usize].definition,
                    ShardDefinition::Value(_)
                ));
            }
        }
        assert!(
            low.shards
                .iter()
                .all(|shard| !matches!(shard.definition, ShardDefinition::ExchangeStaging)),
            "case {case}"
        );
        assert!(low.local_copies.iter().all(|copy| {
            low.shards[copy.source.index() as usize].tile
                == low.shards[copy.destination.index() as usize].tile
        }));
    }
}

/// A repeat that adds one parameter after the other to a carried value.
fn repeated_adds(tiles: u16, count: u32, width: u32) -> MidGraph {
    let shape = [width, 16];
    let parameters = (1..=count).collect::<Vec<_>>();
    let (carried, iterated, sum, result) = (count + 1, count + 2, count + 3, count + 4);
    let mut values = (0..=result).map(|id| value(id, &shape, format(tiles))).collect::<Vec<_>>();
    for id in parameters.iter().chain([&iterated]) {
        values[*id as usize].storage_group = MidValueId::from_index(1);
    }
    let mut inputs = vec![input("carried", GraphInputKind::Host, 0)];
    for &id in &parameters {
        inputs.push(input(&format!("parameter.{}", id - 1), GraphInputKind::Parameter, id));
    }
    MidGraph {
        values,
        inputs,
        operations: vec![MidOperation {
            source: Some(OperationId(7)),
            kind: MidOperationKind::Repeat(MidRepeat {
                count,
                carried_inputs: 1,
                invariant_inputs: 0,
                iterated_inputs: vec![ids(&parameters)],
                body: MidRegion {
                    arguments: ids(&[carried, iterated]),
                    operations: vec![pointwise(
                        MidOperator::Add,
                        PointwiseInputMapping::BroadcastToOutput,
                        &[carried, iterated],
                        &[&format(tiles), &format(tiles)],
                        sum,
                        &format(tiles),
                    )],
                    yields: ids(&[sum]),
                },
            }),
            inputs: ids(&[0]),
            results: ids(&[result]),
            operator_plan: None,
            conversion_plan: None,
        }],
        outputs: ids(&[result]),
    }
}

#[test]
fn randomized_repeats_remain_structured_per_tile() {
    let mut random = fastrand::Rng::with_seed(0x7265_706c);
    for case in 0..CASES {
        let tiles = 1_u16 << random.u32(0..=3);
        let count = random.u32(1..=8);
        let width = u32::from(tiles) * random.u32(1..=8);
        let low = lower(&repeated_adds(tiles, count, width), tiles);

        for tile in &low.tiles {
            let repeats = repeats(&low, tile);
            assert_eq!(repeats.len(), 1, "case {case}");
            assert_eq!(repeats[0].count, count);
            assert_eq!(repeats[0].iterated[0].inputs.len(), count as usize);
            assert!(repeats[0].iterated[0].stride_bytes > 0);
            assert!(repeats[0].iterated[0].stride_bytes % repeats[0].iterated[0].alignment == 0);
            let carried = &repeats[0].carried[0];
            assert_eq!(
                low.shards[carried.argument.index() as usize].definition,
                ShardDefinition::Alias(carried.initial)
            );
            assert_eq!(
                low.shards[carried.yielded.index() as usize].definition,
                ShardDefinition::WritableAlias(carried.argument)
            );
            assert_eq!(
                low.shards[carried.result.index() as usize].definition,
                ShardDefinition::Alias(carried.initial)
            );
            assert!(low
                .work(&repeats[0].body)
                .into_iter()
                .any(|work| matches!(work, TileWorkRef::Kernel(_))));
        }
    }
}

#[test]
fn bodies_of_repeats_meet_the_same_exchanges() {
    let low = lower(&repeated_adds(4, 3, 8), 4);
    let bodies = low.tiles.iter().map(|tile| exchanges(&repeats(&low, tile)[0].body));
    let mut bodies = bodies.collect::<Vec<_>>();
    bodies.dedup();
    assert_eq!(bodies.len(), 1);
}

#[test]
fn repeats_that_cannot_be_in_place_are_rejected() {
    let mut graph = repeated_adds(2, 2, 4);
    if let MidOperationKind::Repeat(repeat) = &mut graph.operations[0].kind {
        let plan = repeat.body.operations[0].operator_plan.as_mut().unwrap();
        plan.requirements.output_aliasing = OutputAliasing::Fresh;
        repeat.body.yields = ids(&[1]);
    }
    assert_eq!(
        lower_to_tiles(&device(), &graph, &config(2)).err(),
        Some(LowLoweringError::RepeatRequiresInPlace(0)),
    );
}

#[test]
fn repeats_whose_parts_do_not_fit_are_rejected() {
    let mut graph = repeated_adds(2, 2, 4);
    if let MidOperationKind::Repeat(repeat) = &mut graph.operations[0].kind {
        repeat.count = 3;
    }
    assert_eq!(
        lower_to_tiles(&device(), &graph, &config(2)).err(),
        Some(LowLoweringError::InvalidRepeat),
    );
}

fn gemm(mode: GemmMode, inner_block: u32, output_columns: u32) -> TileKernelSpec {
    KernelSpec::Gemm {
        multiply: Precision::F16,
        accumulate: AccumulationPrecision::F32,
        mode,
        weights: GemmWeightLoad::Standard,
        inner_block,
        output_columns,
    }
}

fn product(
    formats: [&TensorFormat; 3],
    inner_block: u32,
    column_block: u32,
    distribution: GemmDistribution,
) -> MidOperation {
    product_of([0, 1], 2, formats, inner_block, column_block, distribution)
}

fn product_of(
    inputs: [u32; 2],
    result: u32,
    formats: [&TensorFormat; 3],
    inner_block: u32,
    column_block: u32,
    distribution: GemmDistribution,
) -> MidOperation {
    let mut requirements = requirements(&formats[..2], formats[2]);
    requirements.output_aliasing = OutputAliasing::Fresh;
    operation(
        MidOperator::Gemm,
        OperatorDispatch::BlockedGemm {
            initialize: gemm(GemmMode::Initialize, inner_block, column_block),
            accumulate: gemm(GemmMode::Accumulate, inner_block, column_block),
            inner_block,
            output_column_block: column_block,
            distribution,
            orientation: GemmOrientation::Normal,
        },
        requirements,
        &inputs,
        result,
    )
}

#[test]
fn blocked_products_initialize_and_then_accumulate() {
    let rows = format(4);
    let whole = in_format(layout(ElementOrder::RowMajor, 4, vec![]));
    let graph = MidGraph {
        values: vec![
            value(0, &[32, 64], format(4)),
            value(1, &[64, 32], whole.duplicate()),
            value(2, &[32, 32], format(4)),
        ],
        inputs: vec![
            input("left", GraphInputKind::Host, 0),
            input("right", GraphInputKind::Parameter, 1),
        ],
        operations: vec![product(
            [&rows, &whole, &rows],
            16,
            16,
            GemmDistribution::OutputStationary,
        )],
        outputs: ids(&[2]),
    };
    let low = lower(&graph, 4);
    for tile in &low.tiles {
        let modes = kernels(&low, tile)
            .into_iter()
            .map(|run| match run.metadata.kernel {
                TileKernel::Planned(KernelSpec::Gemm { mode, .. }) => mode,
                _ => panic!("only products are scheduled"),
            })
            .collect::<Vec<_>>();
        assert_eq!(modes.len(), 4 * 2);
        assert!(modes[..2].iter().all(|mode| *mode == GemmMode::Initialize));
        assert!(modes[2..].iter().all(|mode| *mode == GemmMode::Accumulate));
    }
}

#[test]
fn divided_products_are_summed() {
    let left = in_format(layout(
        ElementOrder::RowMajor,
        2,
        vec![tiling(TensorAxis::FromEnd(1), 2, 64)],
    ));
    let right = in_format(layout(
        ElementOrder::RowMajor,
        2,
        vec![tiling(TensorAxis::FromEnd(2), 2, 64)],
    ));
    let output = in_format(layout(
        ElementOrder::RowMajor,
        2,
        vec![tiling(TensorAxis::FromEnd(2), 2, 1), tiling(TensorAxis::FromEnd(1), 1, 16)],
    ));
    for staging in [ReductionStaging::Complete, ReductionStaging::Streamed] {
        let graph = MidGraph {
            values: vec![
                value(0, &[16, 128], left.duplicate()),
                value(1, &[128, 16], right.duplicate()),
                value(2, &[16, 16], output.duplicate()),
            ],
            inputs: vec![
                input("left", GraphInputKind::Host, 0),
                input("right", GraphInputKind::Host, 1),
            ],
            operations: vec![product(
                [&left, &right, &output],
                64,
                16,
                GemmDistribution::ParallelReduction {
                    row_partitions: 1,
                    column_partitions: 1,
                    inner_partitions: 2,
                    result_row_partitions: 2,
                    result_column_partitions: 1,
                    reduction_staging: staging,
                },
            )],
            outputs: ids(&[2]),
        };
        let low = lower(&graph, 2);
        for tile in &low.tiles {
            let sums = kernels(&low, tile)
                .into_iter()
                .filter(|run| {
                    matches!(
                        run.metadata.kernel,
                        TileKernel::Planned(KernelSpec::ReductionSum { partials: 2 })
                    )
                })
                .count();
            assert_eq!(sums, 1);
        }
    }
}

#[test]
fn streamed_products_pass_remote_blocks_through_staging() {
    let rows = format(2);
    let right = in_format(layout(
        ElementOrder::RowMajor,
        2,
        vec![tiling(TensorAxis::FromEnd(2), 2, 64)],
    ));
    let graph = MidGraph {
        values: vec![
            value(0, &[16, 128], format(2)),
            value(1, &[128, 16], right.duplicate()),
            value(2, &[16, 16], format(2)),
        ],
        inputs: vec![
            input("left", GraphInputKind::Host, 0),
            input("right", GraphInputKind::Parameter, 1),
        ],
        operations: vec![product(
            [&rows, &right, &rows],
            64,
            16,
            GemmDistribution::OutputStationary,
        )],
        outputs: ids(&[2]),
    };
    let low = lower(&graph, 2);
    for tile in &low.tiles {
        let modes = kernels(&low, tile)
            .into_iter()
            .map(|run| match run.metadata.kernel {
                TileKernel::Planned(KernelSpec::Gemm { mode, .. }) => mode,
                _ => panic!("only products are scheduled"),
            })
            .collect::<Vec<_>>();
        assert_eq!(modes, [GemmMode::Initialize, GemmMode::Accumulate]);
    }
    // Each block of the inner axis lives on one tile and is sent to the other.
    assert_eq!(low.exchange_phases.len(), 2);
    for (from, phase) in low.exchange_phases.iter().enumerate() {
        assert_eq!(phase.transfers.len(), 1);
        let source = &low.shards[phase.transfers[0].source.shard.index() as usize];
        assert_eq!(usize::from(source.tile), from);
        let receivers = phase.transfers[0]
            .destinations
            .iter()
            .map(|view| low.shards[view.shard.index() as usize].tile)
            .collect::<Vec<_>>();
        assert_eq!(receivers, [1 - source.tile]);
    }
    let staged = low
        .shards
        .iter()
        .filter(|shard| shard.definition == ShardDefinition::ExchangeStaging)
        .count();
    assert_eq!(staged, 2);
}

/// Attention of two heads over four tiles: two blocks of queries, and two
/// blocks of keys, for each head.
fn attention(dispatch: OperatorDispatch) -> MidGraph {
    let queries = in_format(layout(
        ElementOrder::RowMajor,
        4,
        vec![tiling(TensorAxis::FromStart(0), 2, 1), tiling(TensorAxis::FromStart(1), 2, 1)],
    ));
    let keys = in_format(layout(
        ElementOrder::RowMajor,
        4,
        vec![tiling(TensorAxis::FromStart(0), 2, 1), tiling(TensorAxis::FromStart(1), 2, 64)],
    ));
    let mut requirements = requirements(&[&queries, &keys, &keys], &queries);
    requirements.output_aliasing = OutputAliasing::Fresh;
    MidGraph {
        values: vec![
            value(0, &[2, 8, 16], queries.duplicate()),
            value(1, &[2, 128, 16], keys.duplicate()),
            value(2, &[2, 128, 16], keys.duplicate()),
            value(3, &[2, 8, 16], queries.duplicate()),
        ],
        inputs: vec![
            input("query", GraphInputKind::Host, 0),
            input("key", GraphInputKind::Host, 1),
            input("value", GraphInputKind::Host, 2),
        ],
        operations: vec![operation(
            MidOperator::Attention,
            dispatch,
            requirements,
            &[0, 1, 2],
            3,
        )],
        outputs: ids(&[3]),
    }
}

fn blocked_attention(key_block_rows: u32) -> OperatorDispatch {
    OperatorDispatch::BlockedAttention {
        query_key: gemm(GemmMode::Initialize, 16, 64),
        probability_value: gemm(GemmMode::Initialize, 64, 16),
        query_block_rows: 4,
        key_block_rows,
        padded_query_dimension: 16,
        padded_value_dimension: 16,
    }
}

#[test]
fn blocked_attention_merges_one_block_of_keys_after_the_other() {
    let low = lower(&attention(blocked_attention(64)), 4);
    for tile in &low.tiles {
        let runs = kernels(&low, tile);
        assert_eq!(runs.len(), 2 * 4);
        for (block, runs) in runs.chunks(4).enumerate() {
            assert!(matches!(
                runs[0].metadata.kernel,
                TileKernel::Planned(KernelSpec::Gemm { output_columns: 64, .. })
            ));
            assert!(matches!(
                runs[1].metadata.kernel,
                TileKernel::Planned(KernelSpec::AttentionSoftmax {
                    head_dimension: 16,
                    key_columns: 64,
                    padded_key_columns: 64,
                })
            ));
            assert!(matches!(
                runs[2].metadata.kernel,
                TileKernel::Planned(KernelSpec::Gemm { output_columns: 16, .. })
            ));
            match runs[3].metadata.kernel {
                TileKernel::Planned(KernelSpec::AttentionMerge {
                    value_dimension,
                    padded_value_dimension,
                    key_block_columns,
                    initial,
                    final_block,
                }) => {
                    assert_eq!((value_dimension, padded_value_dimension), (16, 16));
                    assert_eq!(key_block_columns, 64);
                    assert_eq!(initial, block == 0);
                    assert_eq!(final_block, block == 1);
                }
                _ => panic!("the results of a block are merged"),
            }
        }
    }
    // The keys and values of a block are on one of the two tiles of its head.
    assert_eq!(low.exchange_phases.len(), 2);
    for phase in &low.exchange_phases {
        assert_eq!(phase.provenance.reason, WorkReason::OperatorInputs);
        assert_eq!(phase.transfers.len(), 2 * 2);
        assert!(phase.transfers.iter().all(|transfer| transfer.destinations.len() == 1));
    }
}

#[test]
fn attention_whose_plan_does_not_fit_is_rejected() {
    let device = device();
    assert_eq!(
        lower_to_tiles(&device, &attention(blocked_attention(32)), &config(4)).err(),
        Some(LowLoweringError::InvalidOperatorPlan),
    );
    // Storage in panels has no bytes on a device with rows only.
    let whole = OperatorDispatch::MaterializedAttention {
        query_key: gemm(GemmMode::Initialize, 16, 128),
        probability_value: gemm(GemmMode::Initialize, 128, 16),
        query_block_rows: 4,
        padded_key_rows: 128,
        padded_query_dimension: 16,
        padded_value_dimension: 16,
    };
    assert_eq!(
        lower_to_tiles(&device, &attention(whole), &config(4)).err(),
        Some(LowLoweringError::Storage(StorageError::WrongShard)),
    );
}

#[test]
fn heads_are_split_where_their_rows_are_needed() {
    let rows = in_format(layout(
        ElementOrder::RowMajor,
        2,
        vec![tiling(TensorAxis::FromStart(1), 2, 1)],
    ));
    let heads = format(2);
    let mut requirements = requirements(&[&rows], &heads);
    requirements.output_aliasing = OutputAliasing::Fresh;
    let graph = MidGraph {
        values: vec![value(0, &[1, 4, 32], rows.duplicate()), value(1, &[2, 4, 16], format(2))],
        inputs: vec![input("input", GraphInputKind::Host, 0)],
        operations: vec![operation(
            MidOperator::SplitHeads { heads: 2 },
            OperatorDispatch::SplitHeads,
            requirements,
            &[0],
            1,
        )],
        outputs: ids(&[1]),
    };
    let low = lower(&graph, 2);
    // Every tile sends the rows of the other head, and keeps those of its own.
    assert_eq!(low.exchange_phases.len(), 1);
    assert_eq!(low.exchange_phases[0].transfers.len(), 2);
    let bytes: u32 = low
        .local_copies
        .iter()
        .map(|copy| match copy.pattern {
            LocalCopyPattern::Contiguous => copy.bytes,
            LocalCopyPattern::Strided { rows, row_bytes, .. } => rows * row_bytes,
        })
        .sum();
    assert_eq!(bytes, 2 * 2 * 16 * 2);
}

#[test]
fn checkpoints_alternate_between_breakpoints() {
    let tiles = 2;
    let gelu = |from, to| {
        pointwise(
            MidOperator::Gelu,
            PointwiseInputMapping::TileLocal,
            &[from],
            &[&format(tiles)],
            to,
            &format(tiles),
        )
    };
    let graph = MidGraph {
        values: (0..4).map(|id| value(id, &[4, 8], format(tiles))).collect(),
        inputs: vec![input("input", GraphInputKind::Host, 0)],
        operations: vec![gelu(0, 1), gelu(1, 2), gelu(2, 3)],
        outputs: ids(&[3]),
    };
    let config = PipelineConfig { tile_count: tiles, diagnostic_checkpoints: true };
    let low = lower_to_tiles(&device(), &graph, &config).unwrap();
    assert_sound(&low);
    for tile in &low.tiles {
        let breakpoints = low
            .work(tile)
            .into_iter()
            .filter_map(|work| match work {
                TileWorkRef::Checkpoint(operation, breakpoint) => Some((operation, breakpoint)),
                _ => None,
            })
            .collect::<Vec<_>>();
        assert_eq!(
            breakpoints,
            vec![(OperationId(1), 0), (OperationId(2), 1), (OperationId(3), 0)],
        );
    }
}

#[test]
fn parameters_are_placed_where_the_peak_is_least() {
    let single = in_format(layout(ElementOrder::RowMajor, 1, vec![]));
    let mut values = (0..3).map(|id| value(id, &[4, 8], single.duplicate())).collect::<Vec<_>>();
    values[2].storage_group = MidValueId::from_index(1);
    let graph = MidGraph {
        values,
        inputs: (0..3)
            .map(|id| input(&format!("parameter.{id}"), GraphInputKind::Parameter, id))
            .collect(),
        operations: vec![],
        outputs: vec![],
    };
    let low = lower(&graph, 3);
    let tiles = low.shards.iter().map(|shard| shard.tile).collect::<Vec<_>>();
    assert_eq!(tiles, vec![0, 1, 1]);
    assert_eq!(low.inputs[2].name, "parameter.2");
    assert_eq!(low.values.len(), 3);
}

#[test]
fn graphs_that_cannot_be_lowered_are_reported() {
    let graph = || MidGraph {
        values: vec![value(0, &[4, 8], format(2)), value(1, &[4, 8], format(2))],
        inputs: vec![input("input", GraphInputKind::Host, 0)],
        operations: vec![pointwise(
            MidOperator::Gelu,
            PointwiseInputMapping::TileLocal,
            &[0],
            &[&format(2)],
            1,
            &format(2),
        )],
        outputs: ids(&[1]),
    };
    let error = |graph: &MidGraph, tiles| {
        lower_to_tiles(&device(), graph, &config(tiles)).err()
    };
    assert_eq!(error(&graph(), 0), Some(LowLoweringError::EmptyTileGroup));
    assert_eq!(
        error(&graph(), 1),
        Some(LowLoweringError::TileCountMismatch {
            value: MidValueId::from_index(0),
            declared: 2,
            scheduled: 1,
        }),
    );

    let mut unknown = graph();
    unknown.outputs = ids(&[9]);
    assert_eq!(
        error(&unknown, 2),
        Some(LowLoweringError::UnknownValue(MidValueId::from_index(9))),
    );

    let mut unplanned = graph();
    unplanned.operations[0].operator_plan = None;
    assert_eq!(error(&unplanned, 2), Some(LowLoweringError::MissingOperatorPlan));

    let mut unknown = graph();
    unknown.values[1].id = MidValueId::from_index(7);
    assert_eq!(
        error(&unknown, 2),
        Some(LowLoweringError::UnknownValue(MidValueId::from_index(7))),
    );
    assert_eq!(
        error(&unknown, 1),
        Some(LowLoweringError::TileCountMismatch {
            value: MidValueId::from_index(0),
            declared: 2,
            scheduled: 1,
        }),
    );

    let mut unknown = graph();
    unknown.inputs = vec![input("input", GraphInputKind::Parameter, 5)];
    assert_eq!(
        error(&unknown, 1),
        Some(LowLoweringError::UnknownValue(MidValueId::from_index(5))),
    );

    let mut two_results = graph();
    two_results.operations[0].results = ids(&[1, 1]);
    assert_eq!(error(&two_results, 2), Some(LowLoweringError::ResultArity));

    let mut untiled = graph();
    untiled.values[0].tensor_type.format.layout.tiling.axes[0].axis = TensorAxis::FromStart(5);
    assert_eq!(
        error(&untiled, 2),
        Some(LowLoweringError::Layout(LayoutError::InvalidTiling)),
    );
}

fn is_gemm(run: &KernelRun) -> bool {
    matches!(run.metadata.kernel, TileKernel::Planned(KernelSpec::Gemm { .. }))
}

/// Rows and columns divided over a grid of tiles, the last axis of the list
/// from tile to tile.
fn grid(tile_count: u16, axes: Vec<AxisTiling>) -> TensorFormat {
    in_format(layout(ElementOrder::RowMajor, tile_count, axes))
}

#[test]
fn randomized_parallel_reduction_gemms_lower_to_packed_reductions() {
    let mut random = fastrand::Rng::with_seed(0x7472_6565_5f6b_7370);
    for case in 0..CASES {
        let output_columns = [64, 128][random.usize(0..2)];
        let inner_partitions = random.u16(2..=4);
        let column_partitions = random.u16(1..=3);
        let row_partitions = random.u16(inner_partitions..=8);
        let tiles = inner_partitions * column_partitions * row_partitions;
        let rows_per_partition = random.u32(1..=4);
        let rows = u32::from(row_partitions) * rows_per_partition;
        let inner = u32::from(inner_partitions)
            * 64
            * random.u32(1..=u32::from(row_partitions / inner_partitions));
        let columns = u32::from(column_partitions) * output_columns;
        let left = grid(
            tiles,
            vec![
                tiling(TensorAxis::FromEnd(2), row_partitions, 1),
                tiling(TensorAxis::FromEnd(1), inner_partitions, 64),
            ],
        );
        let mut right = grid(
            column_partitions * inner_partitions,
            vec![
                tiling(TensorAxis::FromEnd(2), inner_partitions, 64),
                tiling(TensorAxis::FromEnd(1), column_partitions, output_columns),
            ],
        );
        right.layout.memory_class = MemoryClass::Ipu21Interleaved;
        let (result_row_partitions, result_column_partitions) = if random.bool() {
            (1, 1)
        } else if random.bool() && rows_per_partition >= u32::from(inner_partitions) {
            (inner_partitions, 1)
        } else {
            (1, inner_partitions)
        };
        // This device divides an axis into equal parts only.
        let even = rows_per_partition % u32::from(result_row_partitions) == 0
            && (output_columns / 16) % u32::from(result_column_partitions) == 0;
        let (result_row_partitions, result_column_partitions) =
            if even { (result_row_partitions, result_column_partitions) } else { (1, 1) };
        let storage_rows = row_partitions * result_row_partitions;
        let storage_columns = column_partitions * result_column_partitions;
        let reduction_staging = if random.bool() {
            ReductionStaging::Complete
        } else {
            ReductionStaging::Streamed
        };
        let output = grid(
            storage_rows * storage_columns,
            vec![
                tiling(TensorAxis::FromEnd(2), storage_rows, 1),
                tiling(
                    TensorAxis::FromEnd(1),
                    storage_columns,
                    if result_column_partitions > 1 { 16 } else { output_columns },
                ),
            ],
        );
        let graph = MidGraph {
            values: vec![
                value(0, &[1, rows, inner], left.duplicate()),
                value(1, &[1, inner, columns], right.duplicate()),
                value(2, &[1, rows, columns], output.duplicate()),
            ],
            inputs: vec![
                input("left", GraphInputKind::Host, 0),
                input("right", GraphInputKind::Parameter, 1),
            ],
            operations: vec![product(
                [&left, &right, &output],
                64,
                output_columns,
                GemmDistribution::ParallelReduction {
                    row_partitions,
                    column_partitions,
                    inner_partitions,
                    result_row_partitions,
                    result_column_partitions,
                    reduction_staging,
                },
            )],
            outputs: ids(&[2]),
        };
        let low = lower_to_tiles(&device(), &graph, &config(tiles)).unwrap_or_else(|error| {
            panic!(
                "case {case}: {error:?}; rows={rows} inner={inner} columns={columns} \
                 grid={row_partitions}x{column_partitions}x{inner_partitions} \
                 results={result_row_partitions}x{result_column_partitions}"
            )
        });
        assert_sound(&low);
        let reduction_runs = low
            .kernel_runs
            .iter()
            .filter(|run| {
                matches!(
                    run.metadata.kernel,
                    TileKernel::Planned(KernelSpec::ReductionSum { .. })
                )
            })
            .collect::<Vec<_>>();
        assert!(!reduction_runs.is_empty(), "case {case}");
        assert!(
            reduction_runs.iter().all(|run| {
                matches!(
                    run.metadata.kernel,
                    TileKernel::Planned(KernelSpec::ReductionSum { partials })
                        if partials == match reduction_staging {
                            ReductionStaging::Complete => inner_partitions,
                            ReductionStaging::Streamed => 2,
                        }
                ) && run.inputs.len() == 2
            }),
            "case {case}"
        );
        assert!(
            low.exchange_phases.len() <= usize::from(inner_partitions).saturating_add(2),
            "case {case}"
        );
        let parameter_shards = &low
            .inputs
            .iter()
            .find(|input| input.kind == GraphInputKind::Parameter)
            .unwrap()
            .shards;
        let direct_parameter_runs = low
            .kernel_runs
            .iter()
            .filter(|run| {
                is_gemm(run)
                    && run.inputs[1]
                        .views
                        .iter()
                        .any(|view| parameter_shards.contains(&view.shard))
            })
            .count();
        assert!(direct_parameter_runs > 0, "case {case}");
        if (result_row_partitions, result_column_partitions) != (1, 1) {
            let packed_results =
                reduction_runs.iter().map(|run| run.output.shard).collect::<Vec<_>>();
            let copied_outputs = low
                .local_copies
                .iter()
                .filter(|copy| packed_results.contains(&copy.source))
                .map(|copy| copy.destination)
                .collect::<Vec<_>>();
            assert!(
                low.outputs[0].shards.iter().all(|shard| copied_outputs.contains(shard)),
                "case {case}: every distributed result shard must receive a packed result"
            );
        }
    }
}

#[test]
fn randomized_parameter_owner_groups_pack_independently_of_compute_tiles() {
    let mut random = fastrand::Rng::with_seed(0x7061_7261_6d73);
    for case in 0..CASES {
        let owner_tiles = 1_u16 << random.u32(1..=3);
        let compute_tiles = owner_tiles * 2;
        let inner = u32::from(owner_tiles) * 64;
        let rows = u32::from(compute_tiles) * random.u32(1..=4);
        let rows_format = format(compute_tiles);
        let right = grid(owner_tiles, vec![tiling(TensorAxis::FromEnd(2), owner_tiles, 64)]);
        let multiply = |weights: u32, result: u32| {
            product_of(
                [0, weights],
                result,
                [&rows_format, &right, &rows_format],
                64,
                64,
                GemmDistribution::OutputStationary,
            )
        };
        let graph = MidGraph {
            values: vec![
                value(0, &[rows, inner], rows_format.duplicate()),
                value(1, &[inner, 64], right.duplicate()),
                value(2, &[inner, 64], right.duplicate()),
                value(3, &[rows, 64], rows_format.duplicate()),
                value(4, &[rows, 64], rows_format.duplicate()),
            ],
            inputs: vec![
                input("left", GraphInputKind::Host, 0),
                input("right.0", GraphInputKind::Parameter, 1),
                input("right.1", GraphInputKind::Parameter, 2),
            ],
            operations: vec![multiply(1, 3), multiply(2, 4)],
            outputs: ids(&[3, 4]),
        };
        assert!(graph.operations.iter().all(|operation| {
            operation.operator_plan.as_ref().map_or(true, |plan| {
                plan.requirements.inputs[1].format.layout.tiling.tile_count == owner_tiles
                    && plan.requirements.output.format.layout.tiling.tile_count == compute_tiles
            })
        }));
        let low = lower(&graph, compute_tiles);
        let parameter_tiles = |name: &str| {
            let mut tiles = low
                .inputs
                .iter()
                .find(|input| input.name == name)
                .unwrap()
                .shards
                .iter()
                .map(|shard| low.shards[shard.index() as usize].tile)
                .collect::<Vec<_>>();
            tiles.sort_unstable();
            tiles.dedup();
            tiles
        };
        let first = parameter_tiles("right.0");
        let second = parameter_tiles("right.1");
        assert_eq!(first.len(), usize::from(owner_tiles), "case {case}");
        assert_eq!(second.len(), usize::from(owner_tiles), "case {case}");
        assert!(first.iter().all(|tile| !second.contains(tile)), "case {case}");
    }
}

#[test]
fn randomized_dispatch_streaming_defers_one_use_rearrangements() {
    let mut random = fastrand::Rng::with_seed(0x7374_7265_616d);
    for case in 0..8 {
        let batch = random.u32(1..=4);
        let tokens = 16;
        let whole = grid(16, vec![]);
        let by_columns = grid(16, vec![tiling(TensorAxis::FromEnd(1), 16, 16)]);
        let by_tokens = grid(16, vec![tiling(TensorAxis::FromEnd(2), 16, 1)]);
        let mut rearrangement = retile(&by_columns, &by_tokens, 4, 5);
        rearrangement.conversion_plan.as_mut().unwrap().output.materialization =
            OperandMaterialization::DispatchSlices;
        let mut down = product_of(
            [5, 2],
            6,
            [&by_tokens, &whole, &by_tokens],
            64,
            64,
            GemmDistribution::OutputStationary,
        );
        down.operator_plan.as_mut().unwrap().requirements.inputs[0].materialization =
            OperandMaterialization::DispatchSlices;
        let graph = MidGraph {
            values: vec![
                value(0, &[batch, tokens, 64], whole.duplicate()),
                value(1, &[1, 64, 256], by_columns.duplicate()),
                value(2, &[1, 256, 64], whole.duplicate()),
                value(3, &[batch, tokens, 256], by_columns.duplicate()),
                value(4, &[batch, tokens, 256], by_columns.duplicate()),
                value(5, &[batch, tokens, 256], by_tokens.duplicate()),
                value(6, &[batch, tokens, 64], by_tokens.duplicate()),
            ],
            inputs: vec![
                input("input", GraphInputKind::Host, 0),
                input("up", GraphInputKind::Host, 1),
                input("down", GraphInputKind::Host, 2),
            ],
            operations: vec![
                product_of(
                    [0, 1],
                    3,
                    [&whole, &by_columns, &by_columns],
                    64,
                    16,
                    GemmDistribution::OutputStationary,
                ),
                pointwise(
                    MidOperator::Gelu,
                    PointwiseInputMapping::TileLocal,
                    &[3],
                    &[&by_columns],
                    4,
                    &by_columns,
                ),
                rearrangement,
                down,
            ],
            outputs: ids(&[6]),
        };
        let deferred = graph
            .operations
            .iter()
            .filter_map(|operation| {
                operation.conversion_plan.as_ref().and_then(|plan| {
                    (plan.output.materialization == OperandMaterialization::DispatchSlices)
                        .then_some(operation.results[0])
                })
            })
            .collect::<Vec<_>>();
        assert!(!deferred.is_empty(), "case {case}");
        let consumers = graph
            .operations
            .iter()
            .filter(|operation| operation.inputs.iter().any(|input| deferred.contains(input)))
            .filter_map(|operation| operation.source)
            .collect::<Vec<_>>();

        let low = lower(&graph, 16);
        for run in low
            .tiles
            .iter()
            .flat_map(|tile| kernels(&low, tile))
            .filter(|run| is_gemm(run))
        {
            assert!(
                run.output.extents[..run.output.extents.len() - 2]
                    .iter()
                    .all(|extent| extent.physical_end - extent.start == 1),
                "case {case}"
            );
        }
        assert!(
            low.exchange_phases
                .iter()
                .all(|phase| phase.provenance.reason != WorkReason::LayoutRearrangement),
            "case {case}"
        );
        assert!(
            low.exchange_phases
                .iter()
                .any(|phase| phase.provenance.reason == WorkReason::OperatorInputs),
            "case {case}"
        );
        assert!(
            low.shards
                .iter()
                .filter(|shard| shard.definition == ShardDefinition::Unmaterialized)
                .count()
                >= 16 * deferred.len(),
            "case {case}"
        );
        for run in &low.kernel_runs {
            let consumes = match run.metadata.provenance.operation {
                Some(operation) => consumers.contains(&operation),
                None => false,
            };
            if consumes {
                let input = &run.inputs[0].views[0];
                assert_ne!(
                    low.shards[input.shard.index() as usize].definition,
                    ShardDefinition::Unmaterialized,
                    "case {case}"
                );
                let inner = input.extents.last().unwrap();
                if let TileKernel::Planned(KernelSpec::Gemm { inner_block, .. }) =
                    &run.metadata.kernel
                {
                    assert!(inner.physical_end - inner.start <= *inner_block, "case {case}");
                }
            }
        }
    }
}

#[test]
fn randomized_blocked_gemms_expand_to_tile_kernel_phases() {
    let mut random = fastrand::Rng::with_seed(0x6765_6d6d);
    for case in 0..CASES {
        let tiles = 1_u16 << random.u32(0..=3);
        let rows = u32::from(tiles) * random.u32(1..=4) * 8;
        let inner_blocks = random.u32(1..=4);
        let column_blocks = random.u32(1..=4);
        let inner = inner_blocks * 64;
        let columns = column_blocks * 64;
        let single = grid(1, vec![]);
        let mut gathered = retile(&format(tiles), &single, 1, 2);
        gathered.source = Some(OperationId(1));
        let graph = MidGraph {
            values: vec![
                value(0, &[rows, inner], format(tiles)),
                value(1, &[inner, columns], format(tiles)),
                value(2, &[inner, columns], single.duplicate()),
                value(3, &[rows, columns], format(tiles)),
            ],
            inputs: vec![
                input("left", GraphInputKind::Host, 0),
                input("right", GraphInputKind::Parameter, 1),
            ],
            operations: vec![
                gathered,
                product_of(
                    [0, 2],
                    3,
                    [&format(tiles), &single, &format(tiles)],
                    64,
                    64,
                    GemmDistribution::OutputStationary,
                ),
            ],
            outputs: ids(&[3]),
        };
        let low = lower(&graph, tiles);

        assert!(std::mem::size_of::<TileWork>() <= 8);
        let mut metadata = Vec::<&std::sync::Arc<KernelRunMetadata>>::new();
        for run in &low.kernel_runs {
            let text = format!("{:?}", run.metadata);
            if let Some(existing) =
                metadata.iter().find(|existing| format!("{existing:?}") == text)
            {
                assert!(std::sync::Arc::ptr_eq(existing, &run.metadata), "case {case}");
            } else {
                metadata.push(&run.metadata);
            }
        }

        let mut gemm_destinations = low
            .exchange_phases
            .iter()
            .filter(|phase| phase.provenance.reason == WorkReason::OperatorInput { input: 1 })
            .flat_map(|phase| &phase.transfers)
            .flat_map(|transfer| &transfer.destinations)
            .map(|destination| destination.shard.index())
            .collect::<Vec<_>>();
        gemm_destinations.sort_unstable();
        gemm_destinations.dedup();
        let panels_per_phase = column_blocks;
        assert!(
            gemm_destinations.len()
                <= usize::from(tiles) * column_blocks.min(panels_per_phase) as usize,
            "case {case}"
        );
        assert_eq!(gemm_destinations.is_empty(), tiles == 1, "case {case}");
        assert!(low.exchange_phases.iter().all(|phase| {
            phase.provenance.operation.is_some() && phase.provenance.value.is_some()
        }));
        for tile in &low.tiles {
            let mut initialized_columns = Vec::new();
            for run in kernels(&low, tile).into_iter().filter(|run| is_gemm(run)) {
                assert_eq!(run.metadata.provenance.reason, WorkReason::OperatorKernel);
                assert!(run.metadata.provenance.operation.is_some());
                assert!(run.metadata.provenance.value.is_some());
                let (mode, kernel_inner, kernel_columns) = match run.metadata.kernel {
                    TileKernel::Planned(KernelSpec::Gemm {
                        mode,
                        inner_block,
                        output_columns,
                        ..
                    }) => (mode, inner_block, output_columns),
                    _ => unreachable!(),
                };
                let output_key = run
                    .output
                    .extents
                    .iter()
                    .map(|extent| (extent.start, extent.physical_end))
                    .collect::<Vec<_>>();
                let expected = if initialized_columns.contains(&output_key) {
                    GemmMode::Accumulate
                } else {
                    initialized_columns.push(output_key);
                    GemmMode::Initialize
                };
                assert_eq!(mode, expected, "case {case}");
                assert_eq!(run.inputs.len(), 2);
                assert!(run.inputs.iter().all(|operand| operand.views.len() == 1));
                assert!(run.inputs[0].views[0]
                    .extents
                    .iter()
                    .any(|extent| extent.physical_end - extent.start == kernel_inner));
                assert!(run
                    .output
                    .extents
                    .iter()
                    .any(|extent| extent.physical_end - extent.start == kernel_columns));
            }
        }
    }
}

#[test]
fn randomized_odd_capacities_use_nonempty_active_tile_subsets() {
    let mut random = fastrand::Rng::with_seed(0x7375_6273_6574);
    for case in 0..16 {
        let active_tiles = 1_u16 << random.u32(2..=5);
        let capacity = active_tiles + random.u16(1..active_tiles);
        let rows = u32::from(active_tiles);
        let whole = grid(active_tiles, vec![]);
        let graph = MidGraph {
            values: vec![
                value(0, &[rows, 64], format(active_tiles)),
                value(1, &[64, 64], whole.duplicate()),
                value(2, &[rows, 64], format(active_tiles)),
            ],
            inputs: vec![
                input("left", GraphInputKind::Host, 0),
                input("right", GraphInputKind::Parameter, 1),
            ],
            operations: vec![product(
                [&format(active_tiles), &whole, &format(active_tiles)],
                64,
                64,
                GemmDistribution::OutputStationary,
            )],
            outputs: ids(&[2]),
        };
        let selected_tiles = graph.values[2].tensor_type.format.layout.tiling.tile_count;
        assert!(selected_tiles <= capacity, "case {case}");

        let low = lower(&graph, capacity);
        assert_eq!(low.tile_count, capacity, "case {case}");
        assert_eq!(low.outputs[0].shards.len(), usize::from(selected_tiles));
        for &shard in &low.outputs[0].shards {
            assert!(
                low.shards[shard.index() as usize]
                    .extents
                    .iter()
                    .all(|extent| extent.start < extent.logical_end),
                "case {case} capacity={capacity} selected={selected_tiles}"
            );
        }
        assert!(low.tiles.iter().all(|tile| tile.tile < capacity));
    }
}

#[test]
fn randomized_resident_blocked_weights_lower_without_panel_copies() {
    let mut random = fastrand::Rng::with_seed(0x7265_7369);
    for _ in 0..48 {
        let tiles = 1_u16 << random.u32(0..=3);
        let rows = u32::from(tiles) * random.u32(1..=4);
        let inner = 64 * random.u32(2..=4);
        let columns = 64 * random.u32(1..=4);
        let mut right = grid(tiles, vec![]);
        right.layout.memory_class = MemoryClass::Ipu21Interleaved;
        // A block of rows is contiguous on this device where it has all columns.
        let graph = MidGraph {
            values: vec![
                value(0, &[rows, inner], format(tiles)),
                value(1, &[inner, columns], right.duplicate()),
                value(2, &[rows, columns], format(tiles)),
            ],
            inputs: vec![
                input("left", GraphInputKind::Host, 0),
                input("right", GraphInputKind::Parameter, 1),
            ],
            operations: vec![product(
                [&format(tiles), &right, &format(tiles)],
                64,
                columns,
                GemmDistribution::OutputStationary,
            )],
            outputs: ids(&[2]),
        };
        let low = lower(&graph, tiles);
        assert!(low.tiles.iter().all(|tile| low.work(tile).iter().all(|work| {
            !matches!(work, TileWorkRef::LocalCopy(_)) && !matches!(work, TileWorkRef::Exchange(_))
        })));
        assert!(low.tiles.iter().flat_map(|tile| low.work(tile)).any(|work| match work {
            TileWorkRef::Kernel(run) => matches!(
                run.metadata.kernel,
                TileKernel::Planned(KernelSpec::Gemm {
                    weights: GemmWeightLoad::Interleaved,
                    ..
                })
            ),
            _ => false,
        }));
    }
}

#[test]
fn randomized_partially_sharded_weight_grids_preserve_storage() {
    let mut random = fastrand::Rng::with_seed(0x7374_726d_6765_6d6d);
    for _ in 0..32 {
        let row_partitions = 1_u16 << random.u32(1..=2);
        let inner_partitions = 1_u16 << random.u32(1..=row_partitions.ilog2());
        let column_partitions = 1_u16 << random.u32(0..=2);
        let tiles = row_partitions * column_partitions;
        let rows = u32::from(row_partitions) * random.u32(1..=4);
        let inner_blocks = u32::from(row_partitions) * random.u32(1..=2);
        let inner = inner_blocks * 64;
        let columns = u32::from(column_partitions) * 64;
        let local_staging = if random.bool() {
            LocalOperandStaging::Direct
        } else {
            LocalOperandStaging::MatchRemote
        };
        let left = grid(tiles, vec![tiling(TensorAxis::FromEnd(2), row_partitions, 1)]);
        let right = grid(
            tiles,
            vec![
                tiling(TensorAxis::FromEnd(2), inner_partitions, 64),
                tiling(TensorAxis::FromEnd(1), column_partitions, 64),
            ],
        );
        let output = grid(
            tiles,
            vec![
                tiling(TensorAxis::FromEnd(1), column_partitions, 64),
                tiling(TensorAxis::FromEnd(2), row_partitions, 1),
            ],
        );
        let mut multiply =
            product([&left, &right, &output], 64, 64, GemmDistribution::OutputStationary);
        let required = &mut multiply.operator_plan.as_mut().unwrap().requirements;
        required.inputs[0].access_tail_bytes = 16;
        required.inputs[1].local_staging = local_staging;
        let graph = MidGraph {
            values: vec![
                value(0, &[rows, inner], left.duplicate()),
                value(1, &[inner, columns], right.duplicate()),
                value(2, &[rows, columns], output.duplicate()),
            ],
            inputs: vec![
                input("left", GraphInputKind::Host, 0),
                input("right", GraphInputKind::Parameter, 1),
            ],
            operations: vec![multiply],
            outputs: ids(&[2]),
        };
        let low = lower(&graph, tiles);

        let expected_weight_bytes = (inner / u32::from(inner_partitions))
            * (columns / u32::from(column_partitions))
            * 2;
        assert!(low.inputs[1].shards.iter().all(|shard| {
            shard_storage_bytes(&device(), &low.shards[shard.index() as usize])
                == Ok(expected_weight_bytes)
        }));
    }
}

#[test]
fn randomized_repeats_alias_fresh_results_after_the_last_carried_use() {
    let mut random = fastrand::Rng::with_seed(0x696e_706c);
    for case in 0..CASES {
        let tiles = 1_u16 << random.u32(0..=3);
        let count = random.u32(1..=4);
        let rows = u32::from(tiles) * random.u32(1..=4) * 8;
        let whole = grid(tiles, vec![]);
        let weights = (1..=count).collect::<Vec<_>>();
        let (carried, iterated, left) = (count + 1, count + 2, count + 3);
        let (right, product, result) = (count + 4, count + 5, count + 6);
        let mut values = vec![value(0, &[rows, 64], format(tiles))];
        values.extend((1..=count).map(|id| value(id, &[64, 64], format(tiles))));
        values.push(value(carried, &[rows, 64], format(tiles)));
        values.push(value(iterated, &[64, 64], format(tiles)));
        values.push(value(left, &[rows, 64], format(tiles)));
        values.push(value(right, &[64, 64], whole.duplicate()));
        values.push(value(product, &[rows, 64], format(tiles)));
        values.push(value(result, &[rows, 64], format(tiles)));
        for id in weights.iter().chain([&iterated]) {
            values[*id as usize].storage_group = MidValueId::from_index(1);
        }
        let mut inputs = vec![input("carried", GraphInputKind::Host, 0)];
        for &id in &weights {
            inputs.push(input(&format!("weight.{}", id - 1), GraphInputKind::Parameter, id));
        }
        let graph = MidGraph {
            values,
            inputs,
            operations: vec![MidOperation {
                source: Some(OperationId(7)),
                kind: MidOperationKind::Repeat(MidRepeat {
                    count,
                    carried_inputs: 1,
                    invariant_inputs: 0,
                    iterated_inputs: vec![ids(&weights)],
                    body: MidRegion {
                        arguments: ids(&[carried, iterated]),
                        operations: vec![
                            retile(&format(tiles), &format(tiles), carried, left),
                            retile(&format(tiles), &whole, iterated, right),
                            product_of(
                                [left, right],
                                product,
                                [&format(tiles), &whole, &format(tiles)],
                                64,
                                64,
                                GemmDistribution::OutputStationary,
                            ),
                        ],
                        yields: ids(&[product]),
                    },
                }),
                inputs: ids(&[0]),
                results: ids(&[result]),
                operator_plan: None,
                conversion_plan: None,
            }],
            outputs: ids(&[result]),
        };
        let low = lower(&graph, tiles);
        for tile in &low.tiles {
            let repeat = repeats(&low, tile)[0];
            assert_eq!(
                low.shards[repeat.carried[0].yielded.index() as usize].definition,
                ShardDefinition::WritableAlias(repeat.carried[0].argument),
                "case {case}"
            );
        }
    }
}

#[test]
fn conversions_without_plans_gather_their_sources() {
    let by_columns = grid(2, vec![tiling(TensorAxis::FromEnd(1), 2, 2)]);
    let unplanned = |kind: MidOperationKind, to: &TensorFormat| MidGraph {
        values: vec![value(0, &[4, 8], format(2)), value(1, &[4, 8], to.duplicate())],
        inputs: vec![input("input", GraphInputKind::Host, 0)],
        operations: vec![MidOperation {
            source: Some(OperationId(3)),
            kind,
            inputs: ids(&[0]),
            results: ids(&[1]),
            operator_plan: None,
            conversion_plan: None,
        }],
        outputs: ids(&[1]),
    };

    let mut planned = unplanned(MidOperationKind::Rearrange, &by_columns);
    planned.operations = vec![retile(&format(2), &by_columns, 0, 1)];
    planned.operations[0].source = Some(OperationId(3));
    let expected = lower(&planned, 2);
    let low = lower(&unplanned(MidOperationKind::Rearrange, &by_columns), 2);
    assert_eq!(format!("{low:?}"), format!("{expected:?}"));
    assert_eq!(low.exchange_phases.len(), 1);

    let mut wide = by_columns.duplicate();
    wide.precision = Precision::F32;
    let low = lower(&unplanned(MidOperationKind::CastPrecision, &wide), 2);
    assert_eq!(low.exchange_phases.len(), 1);
    assert_eq!(low.exchange_phases[0].provenance.reason, WorkReason::PrecisionCast);
    for tile in &low.tiles {
        let runs = kernels(&low, tile);
        assert_eq!(runs.len(), 1);
        assert!(matches!(
            runs[0].metadata.kernel,
            TileKernel::Planned(KernelSpec::Cast { from: Precision::F16, to: Precision::F32 })
        ));
        let scratch = &low.shards[runs[0].inputs[0].views[0].shard.index() as usize];
        let output = &low.shards[runs[0].output.shard.index() as usize];
        assert_eq!(scratch.definition, ShardDefinition::Staging);
        assert_eq!(scratch.extents, output.extents);
        assert_eq!(scratch.tensor_type.format.precision, Precision::F16);
        assert_eq!(output.tensor_type.format.precision, Precision::F32);
    }

    let mut twice = unplanned(MidOperationKind::Rearrange, &by_columns);
    twice.operations[0].results = ids(&[1, 1]);
    assert_eq!(
        lower_to_tiles(&device(), &twice, &config(2)).err(),
        Some(LowLoweringError::ResultArity),
    );
}

#[test]
fn refused_repeats_leave_the_schedule_as_it_was() {
    let mut graph = repeated_adds(2, 2, 4);
    if let MidOperationKind::Repeat(repeat) = &mut graph.operations[0].kind {
        repeat.count = 3;
    }
    let mut state = LoweringState::new(&device(), &graph, 2).unwrap();
    let before = format!("{state:?}");
    if let MidOperationKind::Repeat(repeat) = &graph.operations[0].kind {
        assert_eq!(
            state.lower_repeat(&device(), &graph.operations[0], repeat).err(),
            Some(LowLoweringError::InvalidRepeat),
        );
    }
    assert_eq!(format!("{state:?}"), before);
}

#[test]
fn repeats_whose_bodies_fail_keep_the_work_around_them() {
    let mut graph = repeated_adds(2, 2, 4);
    let mut state = LoweringState::new(&device(), &graph, 2).unwrap();
    if let MidOperationKind::Repeat(repeat) = &mut graph.operations[0].kind {
        let mut unplanned = pointwise(
            MidOperator::Gelu,
            PointwiseInputMapping::BroadcastToOutput,
            &[4],
            &[&format(2)],
            6,
            &format(2),
        );
        unplanned.operator_plan = None;
        repeat.body.operations.push(unplanned);
    }
    state.tiles[1].work.push(TileWork::Checkpoint(OperationId(5), 0));
    if let MidOperationKind::Repeat(repeat) = &graph.operations[0].kind {
        assert_eq!(
            state.lower_repeat(&device(), &graph.operations[0], repeat).err(),
            Some(LowLoweringError::MissingOperatorPlan),
        );
    }
    assert_eq!(state.tiles[0].work.len(), 0);
    assert_eq!(state.tiles[1].work.len(), 1);
}

#[test]
fn products_divided_over_fewer_than_two_parts_are_refused() {
    let graph = MidGraph { values: vec![], inputs: vec![], operations: vec![], outputs: vec![] };
    let mut state = LoweringState::new(&device(), &graph, 1).unwrap();
    let single = grid(1, vec![]);
    let multiply =
        product([&single, &single, &single], 64, 64, GemmDistribution::OutputStationary);
    let required = &multiply.operator_plan.as_ref().unwrap().requirements;
    let kernel = gemm(GemmMode::Initialize, 64, 64);
    let runs = GemmRuns { initialize: &kernel, accumulate: &kernel, requirements: required };
    let division = Division {
        inner_block: 64,
        column_block: 64,
        partitions: Partitions {
            rows: 1,
            columns: 1,
            inner: 1,
            result_rows: 1,
            result_columns: 1,
        },
        orientation: GemmOrientation::Normal,
        staging: ReductionStaging::Complete,
    };
    assert_eq!(
        state.lower_parallel_reduction_gemm(&device(), &multiply, &runs, division).err(),
        Some(LowLoweringError::InvalidOperatorPlan),
    );
    assert!(state.shards.is_empty() && state.phases.is_empty());
    assert!(state.kernel_runs.is_empty() && state.local_copies.is_empty());

    let bare = OperatorRequirements {
        inputs: vec![],
        output: OperandRequirement::new(single.duplicate(), 8),
        output_aliasing: OutputAliasing::Fresh,
        memory_relations: vec![],
    };
    let runs = GemmRuns { initialize: &kernel, accumulate: &kernel, requirements: &bare };
    assert_eq!(
        state.lower_streamed_blocked_gemm(&device(), &multiply, &runs, 64, 64).err(),
        Some(LowLoweringError::UnknownValue(MidValueId::from_index(0))),
    );
}

#[test]
fn streamed_products_of_nothing_make_no_passes() {
    let single = grid(1, vec![]);
    let error = |inner: u32| {
        let graph = MidGraph {
            values: vec![
                value(0, &[4, inner], single.duplicate()),
                value(1, &[inner, 0], single.duplicate()),
                value(2, &[4, 0], single.duplicate()),
            ],
            inputs: vec![],
            operations: vec![],
            outputs: vec![],
        };
        let mut state = LoweringState::new(&device(), &graph, 1).unwrap();
        let multiply =
            product([&single, &single, &single], 64, 64, GemmDistribution::OutputStationary);
        let required = &multiply.operator_plan.as_ref().unwrap().requirements;
        let kernel = gemm(GemmMode::Initialize, 64, 64);
        let runs = GemmRuns { initialize: &kernel, accumulate: &kernel, requirements: required };
        let error = state.lower_streamed_blocked_gemm(&device(), &multiply, &runs, 64, 64).err();
        assert!(state.kernel_runs.is_empty());
        error
    };
    assert_eq!(error(0), None);
    assert_eq!(error(64), Some(LowLoweringError::InvalidOperatorPlan));
}
