//! The planned program that tile lowering consumes: values, operations and
//! the device plans that were selected for them.

use crate::model::{copy_all, deep, duplicate_all, same_all, same_indices, Model};
use crate::tensor::{FormatModel, Layout, LayoutModel, Precision, TensorFormat, TensorType};
use vstd::prelude::*;

verus! {

#[derive(Clone, Copy, Debug, PartialEq, Eq, PartialOrd, Ord, Hash, Structural)]
pub struct MidValueId(pub u32);

impl MidValueId {
    pub fn index(self) -> (r: u32)
        ensures
            r == self.0,
    {
        self.0
    }

    pub fn from_index(index: u32) -> (r: Self)
        ensures
            r.0 == index,
    {
        MidValueId(index)
    }
}

#[derive(Clone, Copy, Debug, PartialEq, Eq, PartialOrd, Ord, Hash, Structural)]
pub struct OperationId(pub u32);

impl OperationId {
    pub fn index(self) -> (r: u32)
        ensures
            r == self.0,
    {
        self.0
    }
}

#[derive(Clone, Copy, Debug, PartialEq, Eq, Structural)]
pub enum GraphInputKind {
    Host,
    Parameter,
}

#[derive(Clone, Copy, Debug, PartialEq, Eq, Structural)]
pub enum AccumulationPrecision {
    F16,
    F32,
}

#[derive(Clone, Copy, Debug, PartialEq, Eq, Structural)]
pub enum GemmMode {
    Initialize,
    Accumulate,
}

#[derive(Clone, Copy, Debug, PartialEq, Eq, Structural)]
pub enum GemmWeightLoad {
    Standard,
    Interleaved,
}

#[derive(Clone, Copy, Debug, PartialEq, Eq, Structural)]
pub enum GemmOrientation {
    Normal,
    Swapped,
}

/// Softmax options of a fused attention kernel. `scale_bits` holds the bit
/// pattern of an explicit scale.
#[derive(Clone, Copy, Debug, PartialEq, Eq, Structural)]
pub struct AttentionOptions {
    pub causal: bool,
    pub scale_bits: Option<u32>,
}

/// A kernel that one tile runs. `L` is the type of layouts.
#[allow(inconsistent_fields)]
#[derive(Debug)]
pub enum KernelSpec<L> {
    Add,
    Gelu,
    FillZero,
    Cast { from: Precision, to: Precision },
    Rearrange { from: L, to: L },
    Gemm {
        multiply: Precision,
        accumulate: AccumulationPrecision,
        mode: GemmMode,
        weights: GemmWeightLoad,
        inner_block: u32,
        output_columns: u32,
    },
    ReductionSum { partials: u16 },
    AttentionSoftmax { head_dimension: u32, key_columns: u32, padded_key_columns: u32 },
    AttentionMerge {
        value_dimension: u32,
        padded_value_dimension: u32,
        key_block_columns: u32,
        initial: bool,
        final_block: bool,
    },
    FlashAttention { options: AttentionOptions, accumulate: AccumulationPrecision },
}

pub type TileKernelSpec = KernelSpec<Layout>;

/// Abstract value of a [`TileKernelSpec`].
pub type KernelModel = KernelSpec<LayoutModel>;

impl View for KernelSpec<Layout> {
    type V = KernelSpec<LayoutModel>;

    open spec fn view(&self) -> KernelSpec<LayoutModel> {
        match *self {
            KernelSpec::Add => KernelSpec::Add,
            KernelSpec::Gelu => KernelSpec::Gelu,
            KernelSpec::FillZero => KernelSpec::FillZero,
            KernelSpec::Cast { from, to } => KernelSpec::Cast { from, to },
            KernelSpec::Rearrange { from, to } => KernelSpec::Rearrange { from: from@, to: to@ },
            KernelSpec::Gemm {
                multiply,
                accumulate,
                mode,
                weights,
                inner_block,
                output_columns,
            } => KernelSpec::Gemm {
                multiply,
                accumulate,
                mode,
                weights,
                inner_block,
                output_columns,
            },
            KernelSpec::ReductionSum { partials } => KernelSpec::ReductionSum { partials },
            KernelSpec::AttentionSoftmax { head_dimension, key_columns, padded_key_columns } =>
                KernelSpec::AttentionSoftmax { head_dimension, key_columns, padded_key_columns },
            KernelSpec::AttentionMerge {
                value_dimension,
                padded_value_dimension,
                key_block_columns,
                initial,
                final_block,
            } => KernelSpec::AttentionMerge {
                value_dimension,
                padded_value_dimension,
                key_block_columns,
                initial,
                final_block,
            },
            KernelSpec::FlashAttention { options, accumulate } => KernelSpec::FlashAttention {
                options,
                accumulate,
            },
        }
    }
}

impl Model for KernelSpec<Layout> {
    fn duplicate(&self) -> (r: Self) {
        match self {
            KernelSpec::Add => KernelSpec::Add,
            KernelSpec::Gelu => KernelSpec::Gelu,
            KernelSpec::FillZero => KernelSpec::FillZero,
            KernelSpec::Cast { from, to } => KernelSpec::Cast { from: *from, to: *to },
            KernelSpec::Rearrange { from, to } => KernelSpec::Rearrange {
                from: from.duplicate(),
                to: to.duplicate(),
            },
            KernelSpec::Gemm {
                multiply,
                accumulate,
                mode,
                weights,
                inner_block,
                output_columns,
            } => KernelSpec::Gemm {
                multiply: *multiply,
                accumulate: *accumulate,
                mode: *mode,
                weights: *weights,
                inner_block: *inner_block,
                output_columns: *output_columns,
            },
            KernelSpec::ReductionSum { partials } => KernelSpec::ReductionSum {
                partials: *partials,
            },
            KernelSpec::AttentionSoftmax { head_dimension, key_columns, padded_key_columns } =>
                KernelSpec::AttentionSoftmax {
                head_dimension: *head_dimension,
                key_columns: *key_columns,
                padded_key_columns: *padded_key_columns,
            },
            KernelSpec::AttentionMerge {
                value_dimension,
                padded_value_dimension,
                key_block_columns,
                initial,
                final_block,
            } => KernelSpec::AttentionMerge {
                value_dimension: *value_dimension,
                padded_value_dimension: *padded_value_dimension,
                key_block_columns: *key_block_columns,
                initial: *initial,
                final_block: *final_block,
            },
            KernelSpec::FlashAttention { options, accumulate } => KernelSpec::FlashAttention {
                options: *options,
                accumulate: *accumulate,
            },
        }
    }

    fn same(&self, other: &Self) -> (b: bool) {
        match (self, other) {
            (KernelSpec::Add, KernelSpec::Add) => true,
            (KernelSpec::Gelu, KernelSpec::Gelu) => true,
            (KernelSpec::FillZero, KernelSpec::FillZero) => true,
            (KernelSpec::Cast { from, to }, KernelSpec::Cast { from: other_from, to: other_to }) =>
            *from == *other_from && *to == *other_to,
            (
                KernelSpec::Rearrange { from, to },
                KernelSpec::Rearrange { from: other_from, to: other_to },
            ) => from.same(other_from) && to.same(other_to),
            (
                KernelSpec::Gemm {
                    multiply,
                    accumulate,
                    mode,
                    weights,
                    inner_block,
                    output_columns,
                },
                KernelSpec::Gemm {
                    multiply: other_multiply,
                    accumulate: other_accumulate,
                    mode: other_mode,
                    weights: other_weights,
                    inner_block: other_inner_block,
                    output_columns: other_output_columns,
                },
            ) => *multiply == *other_multiply && *accumulate == *other_accumulate && *mode
                == *other_mode && *weights == *other_weights && *inner_block == *other_inner_block
                && *output_columns == *other_output_columns,
            (
                KernelSpec::ReductionSum { partials },
                KernelSpec::ReductionSum { partials: other_partials },
            ) => *partials == *other_partials,
            (
                KernelSpec::AttentionSoftmax { head_dimension, key_columns, padded_key_columns },
                KernelSpec::AttentionSoftmax {
                    head_dimension: other_head_dimension,
                    key_columns: other_key_columns,
                    padded_key_columns: other_padded_key_columns,
                },
            ) => *head_dimension == *other_head_dimension && *key_columns == *other_key_columns
                && *padded_key_columns == *other_padded_key_columns,
            (
                KernelSpec::AttentionMerge {
                    value_dimension,
                    padded_value_dimension,
                    key_block_columns,
                    initial,
                    final_block,
                },
                KernelSpec::AttentionMerge {
                    value_dimension: other_value_dimension,
                    padded_value_dimension: other_padded_value_dimension,
                    key_block_columns: other_key_block_columns,
                    initial: other_initial,
                    final_block: other_final_block,
                },
            ) => *value_dimension == *other_value_dimension && *padded_value_dimension
                == *other_padded_value_dimension && *key_block_columns == *other_key_block_columns
                && *initial == *other_initial && *final_block == *other_final_block,
            (
                KernelSpec::FlashAttention { options, accumulate },
                KernelSpec::FlashAttention {
                    options: other_options,
                    accumulate: other_accumulate,
                },
            ) => options.causal == other_options.causal && options.scale_bits
                == other_options.scale_bits && *accumulate == *other_accumulate,
            _ => false,
        }
    }
}

/// One pointer operand of a kernel.
#[derive(Clone, Copy, Debug, PartialEq, Eq, Structural)]
pub enum MemoryOperand {
    Input(u16),
    Output,
}

#[derive(Debug)]
pub enum MemoryRelation {
    /// The operands must not share a memory element.
    DistinctElements(Vec<MemoryOperand>),
}

impl View for MemoryRelation {
    type V = Seq<MemoryOperand>;

    open spec fn view(&self) -> Seq<MemoryOperand> {
        match *self {
            MemoryRelation::DistinctElements(operands) => operands@,
        }
    }
}

impl Model for MemoryRelation {
    fn duplicate(&self) -> (r: Self) {
        match self {
            MemoryRelation::DistinctElements(operands) => MemoryRelation::DistinctElements(
                copy_all(operands.as_slice()),
            ),
        }
    }

    fn same(&self, other: &Self) -> (b: bool) {
        match (self, other) {
            (MemoryRelation::DistinctElements(a), MemoryRelation::DistinctElements(b)) => {
                if a.len() != b.len() {
                    return false;
                }
                let mut i: usize = 0;
                while i < a.len()
                    invariant
                        i <= a@.len(),
                        a@.len() == b@.len(),
                        self@ == a@,
                        other@ == b@,
                        forall|k: int| 0 <= k < i ==> a@[k] == b@[k],
                    decreases a@.len() - i,
                {
                    if a[i] != b[i] {
                        return false;
                    }
                    i += 1;
                }
                assert(a@ =~= b@);
                true
            },
        }
    }
}

#[derive(Clone, Copy, Debug, PartialEq, Eq, Structural)]
pub enum OperandMaterialization {
    /// The operand is stored in the required format before the operator runs.
    Canonical,
    /// Each dispatch materializes the slice that it consumes.
    DispatchSlices,
}

#[derive(Clone, Copy, Debug, PartialEq, Eq, Structural)]
pub enum LocalOperandStaging {
    /// Resident operands are consumed where they are.
    Direct,
    /// Resident operands are staged as remote ones are.
    MatchRemote,
}

#[derive(Debug)]
pub struct OperandRequirement {
    pub format: TensorFormat,
    pub alignment: u32,
    pub access_tail_bytes: u32,
    pub materialization: OperandMaterialization,
    pub local_staging: LocalOperandStaging,
}

/// Abstract value of an [`OperandRequirement`].
pub struct OperandRequirementModel {
    pub format: FormatModel,
    pub alignment: u32,
    pub access_tail_bytes: u32,
    pub materialization: OperandMaterialization,
    pub local_staging: LocalOperandStaging,
}

/// A requirement with no access tail and no staging of its own.
pub open spec fn plain_requirement(format: FormatModel, alignment: u32) -> OperandRequirementModel {
    OperandRequirementModel {
        format,
        alignment,
        access_tail_bytes: 0,
        materialization: OperandMaterialization::Canonical,
        local_staging: LocalOperandStaging::Direct,
    }
}

impl OperandRequirement {
    pub fn new(format: TensorFormat, alignment: u32) -> (r: Self)
        ensures
            r@ == plain_requirement(format@, alignment),
    {
        OperandRequirement {
            format,
            alignment,
            access_tail_bytes: 0,
            materialization: OperandMaterialization::Canonical,
            local_staging: LocalOperandStaging::Direct,
        }
    }
}

impl View for OperandRequirement {
    type V = OperandRequirementModel;

    open spec fn view(&self) -> OperandRequirementModel {
        OperandRequirementModel {
            format: self.format@,
            alignment: self.alignment,
            access_tail_bytes: self.access_tail_bytes,
            materialization: self.materialization,
            local_staging: self.local_staging,
        }
    }
}

impl Model for OperandRequirement {
    fn duplicate(&self) -> (r: Self) {
        OperandRequirement {
            format: self.format.duplicate(),
            alignment: self.alignment,
            access_tail_bytes: self.access_tail_bytes,
            materialization: self.materialization,
            local_staging: self.local_staging,
        }
    }

    fn same(&self, other: &Self) -> (b: bool) {
        self.format.same(&other.format) && self.alignment == other.alignment
            && self.access_tail_bytes == other.access_tail_bytes && self.materialization
            == other.materialization && self.local_staging == other.local_staging
    }
}

#[derive(Debug)]
pub enum OutputAliasing {
    Fresh,
    MayAliasInputs(Vec<u16>),
    MustAliasInput(u16),
}

/// Abstract value of an [`OutputAliasing`].
pub enum OutputAliasingModel {
    Fresh,
    MayAliasInputs(Seq<u16>),
    MustAliasInput(u16),
}

impl View for OutputAliasing {
    type V = OutputAliasingModel;

    open spec fn view(&self) -> OutputAliasingModel {
        match *self {
            OutputAliasing::Fresh => OutputAliasingModel::Fresh,
            OutputAliasing::MayAliasInputs(inputs) => OutputAliasingModel::MayAliasInputs(inputs@),
            OutputAliasing::MustAliasInput(input) => OutputAliasingModel::MustAliasInput(input),
        }
    }
}

impl Model for OutputAliasing {
    fn duplicate(&self) -> (r: Self) {
        match self {
            OutputAliasing::Fresh => OutputAliasing::Fresh,
            OutputAliasing::MayAliasInputs(inputs) => OutputAliasing::MayAliasInputs(
                copy_all(inputs.as_slice()),
            ),
            OutputAliasing::MustAliasInput(input) => OutputAliasing::MustAliasInput(*input),
        }
    }

    fn same(&self, other: &Self) -> (b: bool) {
        match (self, other) {
            (OutputAliasing::Fresh, OutputAliasing::Fresh) => true,
            (OutputAliasing::MayAliasInputs(a), OutputAliasing::MayAliasInputs(b)) => same_indices(
                a.as_slice(),
                b.as_slice(),
            ),
            (OutputAliasing::MustAliasInput(a), OutputAliasing::MustAliasInput(b)) => *a == *b,
            _ => false,
        }
    }
}

#[derive(Debug)]
pub struct OperatorRequirements {
    pub inputs: Vec<OperandRequirement>,
    pub output: OperandRequirement,
    pub output_aliasing: OutputAliasing,
    pub memory_relations: Vec<MemoryRelation>,
}

/// Abstract value of [`OperatorRequirements`].
pub struct OperatorRequirementsModel {
    pub inputs: Seq<OperandRequirementModel>,
    pub output: OperandRequirementModel,
    pub output_aliasing: OutputAliasingModel,
    pub memory_relations: Seq<Seq<MemoryOperand>>,
}

impl View for OperatorRequirements {
    type V = OperatorRequirementsModel;

    open spec fn view(&self) -> OperatorRequirementsModel {
        OperatorRequirementsModel {
            inputs: deep(self.inputs@),
            output: self.output@,
            output_aliasing: self.output_aliasing@,
            memory_relations: deep(self.memory_relations@),
        }
    }
}

impl Model for OperatorRequirements {
    fn duplicate(&self) -> (r: Self) {
        OperatorRequirements {
            inputs: duplicate_all(&self.inputs),
            output: self.output.duplicate(),
            output_aliasing: self.output_aliasing.duplicate(),
            memory_relations: duplicate_all(&self.memory_relations),
        }
    }

    fn same(&self, other: &Self) -> (b: bool) {
        same_all(&self.inputs, &other.inputs) && self.output.same(&other.output)
            && self.output_aliasing.same(&other.output_aliasing) && same_all(
            &self.memory_relations,
            &other.memory_relations,
        )
    }
}

#[derive(Clone, Copy, Debug, PartialEq, Eq, Structural)]
pub enum PointwiseInputMapping {
    BroadcastToOutput,
    TileLocal,
}

#[derive(Clone, Copy, Debug, PartialEq, Eq, Structural)]
pub enum ReductionStaging {
    /// All remote partials arrive before one reduction.
    Complete,
    /// Remote partials arrive and are reduced one at a time.
    Streamed,
}

#[derive(Clone, Copy, Debug, PartialEq, Eq, Structural)]
pub enum GemmDistribution {
    OutputStationary,
    ParallelReduction {
        row_partitions: u16,
        column_partitions: u16,
        inner_partitions: u16,
        result_row_partitions: u16,
        result_column_partitions: u16,
        reduction_staging: ReductionStaging,
    },
}

#[derive(Debug)]
pub enum OperatorDispatch {
    Pointwise { kernel: TileKernelSpec, input_mapping: PointwiseInputMapping },
    BlockedGemm {
        initialize: TileKernelSpec,
        accumulate: TileKernelSpec,
        inner_block: u32,
        output_column_block: u32,
        distribution: GemmDistribution,
        orientation: GemmOrientation,
    },
    BlockedAttention {
        query_key: TileKernelSpec,
        probability_value: TileKernelSpec,
        query_block_rows: u32,
        key_block_rows: u32,
        padded_query_dimension: u32,
        padded_value_dimension: u32,
    },
    MaterializedAttention {
        query_key: TileKernelSpec,
        probability_value: TileKernelSpec,
        query_block_rows: u32,
        padded_key_rows: u32,
        padded_query_dimension: u32,
        padded_value_dimension: u32,
    },
    SplitHeads,
}

#[derive(Clone, Copy, Debug, PartialEq, Eq, Structural)]
pub enum MidOperator {
    Add,
    Gelu,
    Gemm,
    Attention,
    SplitHeads { heads: u32 },
}

/// A view of a value that its consumer applies while it reads.
#[derive(Clone, Copy, Debug, PartialEq, Eq, Structural)]
pub enum DeferredTransform {
    /// `[batch, rows, parts * width]` read as `[batch * parts, rows, width]`.
    SplitLastAxisIntoLeading { parts: u32 },
}

#[derive(Clone, Copy, Debug, PartialEq, Eq, Structural)]
pub struct DeferredOutput {
    pub source_input: usize,
    pub transform: DeferredTransform,
}

#[derive(Clone, Copy, Debug, PartialEq, Eq, Structural)]
pub struct DeferredInput {
    pub producer: MidValueId,
    pub source: MidValueId,
    pub transform: DeferredTransform,
}

#[derive(Debug)]
pub struct OperatorPlan {
    pub operator: MidOperator,
    pub dispatch: OperatorDispatch,
    pub requirements: OperatorRequirements,
    pub deferred_output: Option<DeferredOutput>,
    pub deferred_inputs: Vec<Option<DeferredInput>>,
}

#[derive(Clone, Copy, Debug, PartialEq, Eq, Structural)]
pub enum ConversionStrategy {
    LocalKernel,
    DirectRetile,
    StageLogicalThenTransform,
}

impl ConversionStrategy {
    pub open spec fn spec_uses_intersections(self) -> bool {
        self != ConversionStrategy::LocalKernel
    }

    /// Whether values move by the intersections of source and result shards.
    pub fn uses_intersections(self) -> (r: bool)
        ensures
            r == self.spec_uses_intersections(),
    {
        self != ConversionStrategy::LocalKernel
    }
}

#[derive(Debug)]
pub struct ConversionPlan {
    pub strategy: ConversionStrategy,
    pub kernel: TileKernelSpec,
    pub input: OperandRequirement,
    pub output: OperandRequirement,
}

#[derive(Debug)]
pub struct MidRegion {
    pub arguments: Vec<MidValueId>,
    pub operations: Vec<MidOperation>,
    pub yields: Vec<MidValueId>,
}

#[derive(Debug)]
pub struct MidRepeat {
    pub count: u32,
    pub carried_inputs: usize,
    pub invariant_inputs: usize,
    pub iterated_inputs: Vec<Vec<MidValueId>>,
    pub body: MidRegion,
}

#[derive(Debug)]
pub enum MidOperationKind {
    CastPrecision,
    Rearrange,
    Operator(MidOperator),
    Repeat(MidRepeat),
}

#[derive(Debug)]
pub struct MidOperation {
    pub source: Option<OperationId>,
    pub kind: MidOperationKind,
    pub inputs: Vec<MidValueId>,
    pub results: Vec<MidValueId>,
    pub operator_plan: Option<OperatorPlan>,
    pub conversion_plan: Option<ConversionPlan>,
}

#[derive(Debug)]
pub struct MidValue {
    pub id: MidValueId,
    pub tensor_type: TensorType,
    pub origin: MidValueId,
    pub storage_group: MidValueId,
}

#[derive(Debug)]
pub struct MidInput {
    pub name: String,
    pub kind: GraphInputKind,
    pub value: MidValueId,
}

#[derive(Debug)]
pub struct MidGraph {
    pub values: Vec<MidValue>,
    pub inputs: Vec<MidInput>,
    pub operations: Vec<MidOperation>,
    pub outputs: Vec<MidValueId>,
}

#[derive(Clone, Copy, Debug, PartialEq, Eq, Structural)]
pub struct PipelineConfig {
    pub tile_count: u16,
    pub diagnostic_checkpoints: bool,
}

} // verus!
