//! Scratch shards, and the kernels that clear and rearrange them.

use crate::kernels::append_kernel;
use crate::low::{
    one_operand, KernelRequirements, KernelRun, LowLoweringResult, LowShard, LowShardId,
    MetadataModel, RequirementsModel, RunModel, ShardDefinition, ShardModel, ShardView, TileKernel,
    ViewModel, WorkProvenance,
};
use crate::mid::{
    plain_requirement, KernelSpec, OperandRequirement, OperatorRequirements,
    OperatorRequirementsModel, OutputAliasing, OutputAliasingModel,
};
use crate::model::{Model, group_deep};
use crate::state::{did, gave, push_shard, shard_of, LoweringState, StateModel, Step, StepWith};
use crate::tensor::{
    replicated_layout, ElementOrder, FormatModel, Layout, MemoryClass, Precision, ShardExtent,
    TensorFormat, TensorShape, TensorType, TypeModel,
};
use vstd::prelude::*;

verus! {

/// A range that starts at zero.
pub open spec fn from_zero(axis: u16, logical_end: u32, physical_end: u32) -> ShardExtent {
    ShardExtent { axis, start: 0, logical_end, physical_end }
}

/// A matrix on one tile that no value defines.
pub open spec fn scratch_matrix(
    tile: u16,
    rows: (u32, u32),
    columns: (u32, u32),
    precision: Precision,
    order: ElementOrder,
    memory_class: MemoryClass,
) -> ShardModel {
    ShardModel {
        id: LowShardId(0),
        tile,
        tensor_type: TypeModel {
            shape: seq![rows.0, columns.0],
            format: FormatModel { precision, layout: replicated_layout(order, memory_class) },
        },
        extents: seq![from_zero(0, rows.0, rows.1), from_zero(1, columns.0, columns.1)],
        definition: ShardDefinition::Staging,
    }
}

/// A row of elements on one tile that no value defines.
pub open spec fn packed_buffer(
    tile: u16,
    elements: u32,
    precision: Precision,
    definition: ShardDefinition,
) -> ShardModel {
    ShardModel {
        id: LowShardId(0),
        tile,
        tensor_type: TypeModel {
            shape: seq![elements],
            format: FormatModel {
                precision,
                layout: replicated_layout(ElementOrder::RowMajor, MemoryClass::Ipu21Standard),
            },
        },
        extents: seq![from_zero(0, elements, elements)],
        definition,
    }
}

/// Adds attention scratch memory without padding.
pub open spec fn push_attention_scratch(
    s: StateModel,
    tile: u16,
    rows: u32,
    columns: u32,
    precision: Precision,
    order: ElementOrder,
    memory_class: MemoryClass,
) -> StepWith<LowShardId> {
    push_shard(
        s,
        scratch_matrix(tile, (rows, rows), (columns, columns), precision, order, memory_class),
    )
}

/// Adds a half-precision matrix in standard memory.
pub open spec fn push_attention_buffer(
    s: StateModel,
    tile: u16,
    rows: (u32, u32),
    columns: (u32, u32),
    order: ElementOrder,
) -> StepWith<LowShardId> {
    push_shard(
        s,
        scratch_matrix(
            tile,
            rows,
            columns,
            Precision::F16,
            order,
            MemoryClass::Ipu21Standard,
        ),
    )
}

/// The run that clears a shard.
pub open spec fn fill_zero_run(
    id: LowShardId,
    shard: ShardModel,
    provenance: WorkProvenance,
) -> RunModel {
    RunModel {
        metadata: MetadataModel {
            provenance,
            kernel: KernelSpec::FillZero,
            requirements: RequirementsModel::Operator(
                OperatorRequirementsModel {
                    inputs: Seq::empty(),
                    output: plain_requirement(shard.tensor_type.format, 8),
                    output_aliasing: OutputAliasingModel::Fresh,
                    memory_relations: Seq::empty(),
                },
            ),
        },
        inputs: Seq::empty(),
        output: ViewModel { shard: id, extents: shard.extents },
    }
}

/// Schedules the clearing of a shard on its tile.
pub open spec fn append_fill_zero(s: StateModel, id: LowShardId, provenance: WorkProvenance) -> Step {
    match shard_of(s.shards, id) {
        Err(e) => Err(e),
        Ok(shard) => append_kernel(s, shard.tile, fill_zero_run(id, shard, provenance)),
    }
}

/// The run that rearranges one shard into the order of another.
pub open spec fn rearrange_run(
    source: LowShardId,
    from: ShardModel,
    destination: LowShardId,
    to: ShardModel,
    alignment: u32,
    provenance: WorkProvenance,
) -> RunModel {
    RunModel {
        metadata: MetadataModel {
            provenance,
            kernel: KernelSpec::Rearrange {
                from: from.tensor_type.format.layout,
                to: to.tensor_type.format.layout,
            },
            requirements: RequirementsModel::Conversion {
                input: plain_requirement(from.tensor_type.format, alignment),
                output: plain_requirement(to.tensor_type.format, alignment),
                memory_relations: Seq::empty(),
            },
        },
        inputs: seq![seq![ViewModel { shard: source, extents: from.extents }]],
        output: ViewModel { shard: destination, extents: to.extents },
    }
}

/// Schedules the rearrangement of one shard into another on a tile.
pub open spec fn append_attention_rearrange(
    s: StateModel,
    tile: u16,
    source: LowShardId,
    destination: LowShardId,
    alignment: u32,
    provenance: WorkProvenance,
) -> Step {
    match shard_of(s.shards, source) {
        Err(e) => Err(e),
        Ok(from) => match shard_of(s.shards, destination) {
            Err(e) => Err(e),
            Ok(to) => append_kernel(
                s,
                tile,
                rearrange_run(source, from, destination, to, alignment, provenance),
            ),
        },
    }
}

fn local_type(
    shape: Vec<u32>,
    precision: Precision,
    order: ElementOrder,
    memory_class: MemoryClass,
) -> (r: TensorType)
    ensures
        r@ == (TypeModel {
            shape: shape@,
            format: FormatModel { precision, layout: replicated_layout(order, memory_class) },
        }),
{
    TensorType {
        shape: TensorShape(shape),
        format: TensorFormat { precision, layout: Layout::local(order, memory_class) },
    }
}

impl LoweringState {
    fn push_scratch_matrix(
        &mut self,
        tile: u16,
        rows: (u32, u32),
        columns: (u32, u32),
        precision: Precision,
        order: ElementOrder,
        memory_class: MemoryClass,
    ) -> (r: LowLoweringResult<LowShardId>)
        ensures
            gave(
                r,
                final(self)@,
                push_shard(
                    old(self)@,
                    scratch_matrix(tile, rows, columns, precision, order, memory_class),
                ),
            ),
    {
        let mut shape: Vec<u32> = Vec::new();
        shape.push(rows.0);
        shape.push(columns.0);
        let mut extents: Vec<ShardExtent> = Vec::new();
        extents.push(
            ShardExtent { axis: 0, start: 0, logical_end: rows.0, physical_end: rows.1 },
        );
        extents.push(
            ShardExtent { axis: 1, start: 0, logical_end: columns.0, physical_end: columns.1 },
        );
        let shard = LowShard {
            id: LowShardId(0),
            tile,
            tensor_type: local_type(shape, precision, order, memory_class),
            extents,
            definition: ShardDefinition::Staging,
        };
        proof {
            let expected = scratch_matrix(tile, rows, columns, precision, order, memory_class);
            assert(shard@.extents =~= expected.extents);
            assert(shard@.tensor_type.shape =~= expected.tensor_type.shape);
            assert(shard@ == expected);
        }
        self.push_shard(shard)
    }

    pub fn push_attention_scratch(
        &mut self,
        tile: u16,
        rows: u32,
        columns: u32,
        precision: Precision,
        order: ElementOrder,
        memory_class: MemoryClass,
    ) -> (r: LowLoweringResult<LowShardId>)
        ensures
            gave(
                r,
                final(self)@,
                push_attention_scratch(
                    old(self)@,
                    tile,
                    rows,
                    columns,
                    precision,
                    order,
                    memory_class,
                ),
            ),
    {
        self.push_scratch_matrix(
            tile,
            (rows, rows),
            (columns, columns),
            precision,
            order,
            memory_class,
        )
    }

    pub fn push_attention_buffer(
        &mut self,
        tile: u16,
        rows: (u32, u32),
        columns: (u32, u32),
        order: ElementOrder,
    ) -> (r: LowLoweringResult<LowShardId>)
        ensures
            gave(
                r,
                final(self)@,
                push_attention_buffer(old(self)@, tile, rows, columns, order),
            ),
    {
        self.push_scratch_matrix(
            tile,
            rows,
            columns,
            Precision::F16,
            order,
            MemoryClass::Ipu21Standard,
        )
    }

    pub fn push_packed_buffer(
        &mut self,
        tile: u16,
        elements: u32,
        precision: Precision,
        definition: ShardDefinition,
    ) -> (r: LowLoweringResult<LowShardId>)
        ensures
            gave(
                r,
                final(self)@,
                push_shard(old(self)@, packed_buffer(tile, elements, precision, definition)),
            ),
    {
        let mut shape: Vec<u32> = Vec::new();
        shape.push(elements);
        let mut extents: Vec<ShardExtent> = Vec::new();
        extents.push(
            ShardExtent { axis: 0, start: 0, logical_end: elements, physical_end: elements },
        );
        let shard = LowShard {
            id: LowShardId(0),
            tile,
            tensor_type: local_type(
                shape,
                precision,
                ElementOrder::RowMajor,
                MemoryClass::Ipu21Standard,
            ),
            extents,
            definition,
        };
        proof {
            let expected = packed_buffer(tile, elements, precision, definition);
            assert(shard@.extents =~= expected.extents);
            assert(shard@.tensor_type.shape =~= expected.tensor_type.shape);
            assert(shard@ == expected);
        }
        self.push_shard(shard)
    }

    pub fn append_fill_zero(&mut self, id: LowShardId, provenance: WorkProvenance) -> (r:
        LowLoweringResult<()>)
        ensures
            did(r, final(self)@, append_fill_zero(old(self)@, id, provenance)),
    {
        broadcast use group_deep;

        let shard = match self.shard(id) {
            Ok(shard) => shard.duplicate(),
            Err(e) => {
                return Err(e);
            },
        };
        let tile = shard.tile;
        let requirements = OperatorRequirements {
            inputs: Vec::new(),
            output: OperandRequirement::new(shard.tensor_type.format.duplicate(), 8),
            output_aliasing: OutputAliasing::Fresh,
            memory_relations: Vec::new(),
        };
        let ghost model = shard@;
        let run = KernelRun::new(
            provenance,
            TileKernel::Planned(KernelSpec::FillZero),
            Vec::new(),
            ShardView { shard: id, extents: shard.extents },
            KernelRequirements::Operator(requirements),
        );
        assert(run@ == fill_zero_run(id, model, provenance));
        self.append_kernel(tile, run)
    }

    pub fn append_attention_rearrange(
        &mut self,
        tile: u16,
        source: LowShardId,
        destination: LowShardId,
        alignment: u32,
        provenance: WorkProvenance,
    ) -> (r: LowLoweringResult<()>)
        ensures
            did(
                r,
                final(self)@,
                append_attention_rearrange(old(self)@, tile, source, destination, alignment, provenance),
            ),
    {
        broadcast use group_deep;

        let from = match self.shard(source) {
            Ok(shard) => shard.duplicate(),
            Err(e) => {
                return Err(e);
            },
        };
        let to = match self.shard(destination) {
            Ok(shard) => shard.duplicate(),
            Err(e) => {
                return Err(e);
            },
        };
        let ghost from_model = from@;
        let ghost to_model = to@;
        let run = KernelRun::new(
            provenance,
            TileKernel::Planned(
                KernelSpec::Rearrange {
                    from: from.tensor_type.format.layout.duplicate(),
                    to: to.tensor_type.format.layout.duplicate(),
                },
            ),
            one_operand(ShardView { shard: source, extents: from.extents }),
            ShardView { shard: destination, extents: to.extents },
            KernelRequirements::Conversion {
                input: OperandRequirement::new(from.tensor_type.format, alignment),
                output: OperandRequirement::new(to.tensor_type.format, alignment),
                memory_relations: Vec::new(),
            },
        );
        assert(run@ == rearrange_run(
            source,
            from_model,
            destination,
            to_model,
            alignment,
            provenance,
        ));
        self.append_kernel(tile, run)
    }
}

} // verus!
