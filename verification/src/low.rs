//! Logical per-tile schedules.
//!
//! Tensor shards have tile identities and rectangular physical extents, and
//! work is ordered per tile. Exchanges refer to logical shards rather than to
//! memory addresses; kernel runs name a selected kernel kind rather than a
//! linked symbol. Placement and code generation resolve those choices.

use crate::mid::{
    GraphInputKind, KernelModel, MemoryOperand, MemoryRelation, MidValueId, OperandRequirement,
    OperandRequirementModel, OperationId, OperatorRequirements, OperatorRequirementsModel,
    TileKernelSpec,
};
use crate::model::{copy_all, deep, duplicate_all, same_all, Model};
use crate::tensor::{same_extents, LayoutError, ShardExtent, StorageError, TensorType, TypeModel};
use std::sync::Arc;
use vstd::prelude::*;

verus! {

#[derive(Clone, Copy, Debug, PartialEq, Eq, PartialOrd, Ord, Hash, Structural)]
pub struct LowShardId(pub u32);

impl LowShardId {
    pub fn index(self) -> (r: u32)
        ensures
            r == self.0,
    {
        self.0
    }

    pub fn from_index(index: u32) -> (r: Self)
        ensures
            r == LowShardId(index),
    {
        LowShardId(index)
    }
}

#[derive(Clone, Copy, Debug, PartialEq, Eq, PartialOrd, Ord, Hash, Structural)]
pub struct ExchangePhaseId(pub u32);

impl ExchangePhaseId {
    pub fn from_index(index: u32) -> (r: Self)
        ensures
            r == ExchangePhaseId(index),
    {
        ExchangePhaseId(index)
    }

    pub fn index(self) -> (r: u32)
        ensures
            r == self.0,
    {
        self.0
    }
}

#[derive(Clone, Copy, Debug, PartialEq, Eq, PartialOrd, Ord, Hash, Structural)]
pub struct KernelRunId(pub u32);

impl KernelRunId {
    pub fn index(self) -> (r: u32)
        ensures
            r == self.0,
    {
        self.0
    }
}

#[derive(Clone, Copy, Debug, PartialEq, Eq, PartialOrd, Ord, Hash, Structural)]
pub struct LocalCopyId(pub u32);

impl LocalCopyId {
    pub fn index(self) -> (r: u32)
        ensures
            r == self.0,
    {
        self.0
    }
}

#[derive(Clone, Copy, Debug, PartialEq, Eq, PartialOrd, Ord, Hash, Structural)]
pub struct RepeatRunId(pub u32);

impl RepeatRunId {
    pub fn index(self) -> (r: u32)
        ensures
            r == self.0,
    {
        self.0
    }
}

/// A rectangle inside a shard.
#[derive(Debug)]
pub struct ShardView {
    pub shard: LowShardId,
    pub extents: Vec<ShardExtent>,
}

/// Abstract value of a [`ShardView`].
pub struct ViewModel {
    pub shard: LowShardId,
    pub extents: Seq<ShardExtent>,
}

impl View for ShardView {
    type V = ViewModel;

    open spec fn view(&self) -> ViewModel {
        ViewModel { shard: self.shard, extents: self.extents@ }
    }
}

impl Model for ShardView {
    fn duplicate(&self) -> (r: Self) {
        ShardView { shard: self.shard, extents: copy_all(self.extents.as_slice()) }
    }

    fn same(&self, other: &Self) -> (b: bool) {
        self.shard == other.shard && same_extents(
            self.extents.as_slice(),
            other.extents.as_slice(),
        )
    }
}

#[derive(Clone, Copy, Debug, PartialEq, Eq, Structural)]
pub enum ShardDefinition {
    Value(MidValueId),
    /// Transient storage populated by one or more exchange phases.
    ExchangeStaging,
    LocalCopy(LowShardId),
    /// Persistent scratch allocation populated by local copies or exchanges.
    Staging,
    Alias(LowShardId),
    /// Alias intentionally used as an in-place operation destination.
    WritableAlias(LowShardId),
    /// Canonical format placeholder replaced by dispatch-local staging.
    Unmaterialized,
    /// Alias at a distance in bytes, for an operation that consumes its input
    /// while it writes.
    ShiftedAlias { source: LowShardId, offset: i32 },
}

#[derive(Debug)]
pub struct LowShard {
    pub id: LowShardId,
    pub tile: u16,
    pub tensor_type: TensorType,
    pub extents: Vec<ShardExtent>,
    pub definition: ShardDefinition,
}

/// Abstract value of a [`LowShard`].
pub struct ShardModel {
    pub id: LowShardId,
    pub tile: u16,
    pub tensor_type: TypeModel,
    pub extents: Seq<ShardExtent>,
    pub definition: ShardDefinition,
}

impl View for LowShard {
    type V = ShardModel;

    open spec fn view(&self) -> ShardModel {
        ShardModel {
            id: self.id,
            tile: self.tile,
            tensor_type: self.tensor_type@,
            extents: self.extents@,
            definition: self.definition,
        }
    }
}

impl Model for LowShard {
    fn duplicate(&self) -> (r: Self) {
        LowShard {
            id: self.id,
            tile: self.tile,
            tensor_type: self.tensor_type.duplicate(),
            extents: copy_all(self.extents.as_slice()),
            definition: self.definition,
        }
    }

    fn same(&self, other: &Self) -> (b: bool) {
        self.id == other.id && self.tile == other.tile && self.tensor_type.same(&other.tensor_type)
            && same_extents(self.extents.as_slice(), other.extents.as_slice()) && self.definition
            == other.definition
    }
}

#[derive(Debug)]
pub struct LowInput {
    pub name: String,
    pub kind: GraphInputKind,
    pub value: MidValueId,
    pub shards: Vec<LowShardId>,
}

#[derive(Debug)]
pub struct LowValue {
    pub value: MidValueId,
    pub shards: Vec<LowShardId>,
}

/// Abstract value of a [`LowValue`].
pub struct ValueModel {
    pub value: MidValueId,
    pub shards: Seq<LowShardId>,
}

impl View for LowValue {
    type V = ValueModel;

    open spec fn view(&self) -> ValueModel {
        ValueModel { value: self.value, shards: self.shards@ }
    }
}

/// Abstract value of a [`LowInput`].
pub struct InputModel {
    pub name: Seq<char>,
    pub kind: GraphInputKind,
    pub value: MidValueId,
    pub shards: Seq<LowShardId>,
}

impl View for LowInput {
    type V = InputModel;

    open spec fn view(&self) -> InputModel {
        InputModel { name: self.name@, kind: self.kind, value: self.value, shards: self.shards@ }
    }
}

#[derive(Clone, Copy, Debug, PartialEq, Eq, Structural)]
pub enum ExchangeOrder {
    /// Preserve tensor coordinates, converting between physical layouts.
    Semantic,
    /// Preserve allocation order, treating both views as packed byte spans.
    Physical,
}

impl Default for ExchangeOrder {
    fn default() -> (r: Self)
        ensures
            r == ExchangeOrder::Semantic,
    {
        ExchangeOrder::Semantic
    }
}

/// One source view may populate arbitrary corresponding views on several
/// tiles. Sequential phases may reuse transient destinations after consumers
/// have run.
#[derive(Debug)]
pub struct LogicalExchange {
    pub source: ShardView,
    pub destinations: Vec<ShardView>,
    pub order: ExchangeOrder,
}

/// Abstract value of a [`LogicalExchange`].
pub struct ExchangeModel {
    pub source: ViewModel,
    pub destinations: Seq<ViewModel>,
    pub order: ExchangeOrder,
}

impl View for LogicalExchange {
    type V = ExchangeModel;

    open spec fn view(&self) -> ExchangeModel {
        ExchangeModel {
            source: self.source@,
            destinations: deep(self.destinations@),
            order: self.order,
        }
    }
}

#[derive(Clone, Copy, Debug, PartialEq, Eq, Structural)]
pub enum WorkReason {
    OperatorKernel,
    OperatorInput { input: u16 },
    OperatorInputs,
    PrecisionCast,
    LayoutRearrangement,
    Repeat,
}

#[derive(Clone, Copy, Debug, PartialEq, Eq, Structural)]
pub struct WorkProvenance {
    pub operation: Option<OperationId>,
    pub value: Option<MidValueId>,
    pub reason: WorkReason,
}

#[derive(Debug)]
pub struct ExchangePhase {
    pub id: ExchangePhaseId,
    pub provenance: WorkProvenance,
    pub transfers: Vec<LogicalExchange>,
}

/// Abstract value of an [`ExchangePhase`].
pub struct PhaseModel {
    pub id: ExchangePhaseId,
    pub provenance: WorkProvenance,
    pub transfers: Seq<ExchangeModel>,
}

impl View for ExchangePhase {
    type V = PhaseModel;

    open spec fn view(&self) -> PhaseModel {
        PhaseModel {
            id: self.id,
            provenance: self.provenance,
            transfers: deep(self.transfers@),
        }
    }
}

#[derive(Debug)]
pub enum TileKernel {
    Planned(TileKernelSpec),
}

impl View for TileKernel {
    type V = KernelModel;

    open spec fn view(&self) -> KernelModel {
        match *self {
            TileKernel::Planned(kernel) => kernel@,
        }
    }
}

impl Model for TileKernel {
    fn duplicate(&self) -> (r: Self) {
        match self {
            TileKernel::Planned(kernel) => TileKernel::Planned(kernel.duplicate()),
        }
    }

    fn same(&self, other: &Self) -> (b: bool) {
        match (self, other) {
            (TileKernel::Planned(a), TileKernel::Planned(b)) => a.same(b),
        }
    }
}

#[derive(Debug)]
pub enum KernelRequirements {
    Operator(OperatorRequirements),
    Conversion {
        input: OperandRequirement,
        output: OperandRequirement,
        memory_relations: Vec<MemoryRelation>,
    },
}

/// Abstract value of [`KernelRequirements`].
pub enum RequirementsModel {
    Operator(OperatorRequirementsModel),
    Conversion {
        input: OperandRequirementModel,
        output: OperandRequirementModel,
        memory_relations: Seq<Seq<MemoryOperand>>,
    },
}

impl View for KernelRequirements {
    type V = RequirementsModel;

    open spec fn view(&self) -> RequirementsModel {
        match *self {
            KernelRequirements::Operator(requirements) => RequirementsModel::Operator(
                requirements@,
            ),
            KernelRequirements::Conversion { input, output, memory_relations } =>
                RequirementsModel::Conversion {
                input: input@,
                output: output@,
                memory_relations: deep(memory_relations@),
            },
        }
    }
}

impl Model for KernelRequirements {
    fn duplicate(&self) -> (r: Self) {
        match self {
            KernelRequirements::Operator(requirements) => KernelRequirements::Operator(
                requirements.duplicate(),
            ),
            KernelRequirements::Conversion { input, output, memory_relations } =>
                KernelRequirements::Conversion {
                input: input.duplicate(),
                output: output.duplicate(),
                memory_relations: duplicate_all(memory_relations),
            },
        }
    }

    fn same(&self, other: &Self) -> (b: bool) {
        match (self, other) {
            (KernelRequirements::Operator(a), KernelRequirements::Operator(b)) => a.same(b),
            (
                KernelRequirements::Conversion { input, output, memory_relations },
                KernelRequirements::Conversion {
                    input: other_input,
                    output: other_output,
                    memory_relations: other_relations,
                },
            ) => input.same(other_input) && output.same(other_output) && same_all(
                memory_relations,
                other_relations,
            ),
            _ => false,
        }
    }
}

#[derive(Debug)]
pub struct KernelOperand {
    /// Views resident on the execution tile which form this ABI operand.
    pub views: Vec<ShardView>,
}

impl View for KernelOperand {
    type V = Seq<ViewModel>;

    open spec fn view(&self) -> Seq<ViewModel> {
        deep(self.views@)
    }
}

impl Model for KernelOperand {
    fn duplicate(&self) -> (r: Self) {
        KernelOperand { views: duplicate_all(&self.views) }
    }

    fn same(&self, other: &Self) -> (b: bool) {
        same_all(&self.views, &other.views)
    }
}

impl KernelOperand {
    /// An operand that is one view.
    pub fn of(view: ShardView) -> (r: KernelOperand)
        ensures
            r@ == seq![view@],
    {
        let mut views: Vec<ShardView> = Vec::new();
        views.push(view);
        let r = KernelOperand { views };
        assert(r@ =~= seq![view@]);
        r
    }
}

/// The operands of a kernel with one input.
pub fn one_operand(view: ShardView) -> (r: Vec<KernelOperand>)
    ensures
        deep(r@) == seq![seq![view@]],
{
    let mut operands: Vec<KernelOperand> = Vec::new();
    operands.push(KernelOperand::of(view));
    assert(deep(operands@) =~= seq![seq![view@]]);
    operands
}

/// The operands of a kernel with two inputs.
pub fn two_operands(first: ShardView, second: ShardView) -> (r: Vec<KernelOperand>)
    ensures
        deep(r@) == seq![seq![first@], seq![second@]],
{
    let mut operands: Vec<KernelOperand> = Vec::new();
    operands.push(KernelOperand::of(first));
    operands.push(KernelOperand::of(second));
    assert(deep(operands@) =~= seq![seq![first@], seq![second@]]);
    operands
}

#[derive(Debug)]
pub struct KernelRunMetadata {
    pub provenance: WorkProvenance,
    pub kernel: TileKernel,
    pub requirements: KernelRequirements,
}

/// Abstract value of [`KernelRunMetadata`].
pub struct MetadataModel {
    pub provenance: WorkProvenance,
    pub kernel: KernelModel,
    pub requirements: RequirementsModel,
}

impl View for KernelRunMetadata {
    type V = MetadataModel;

    open spec fn view(&self) -> MetadataModel {
        MetadataModel {
            provenance: self.provenance,
            kernel: self.kernel@,
            requirements: self.requirements@,
        }
    }
}

impl Model for KernelRunMetadata {
    fn duplicate(&self) -> (r: Self) {
        KernelRunMetadata {
            provenance: self.provenance,
            kernel: self.kernel.duplicate(),
            requirements: self.requirements.duplicate(),
        }
    }

    fn same(&self, other: &Self) -> (b: bool) {
        self.provenance == other.provenance && self.kernel.same(&other.kernel)
            && self.requirements.same(&other.requirements)
    }
}

#[derive(Debug)]
pub struct KernelRun {
    pub metadata: Arc<KernelRunMetadata>,
    pub inputs: Vec<KernelOperand>,
    pub output: ShardView,
}

/// Abstract value of a [`KernelRun`].
pub struct RunModel {
    pub metadata: MetadataModel,
    pub inputs: Seq<Seq<ViewModel>>,
    pub output: ViewModel,
}

impl View for KernelRun {
    type V = RunModel;

    open spec fn view(&self) -> RunModel {
        RunModel { metadata: (*self.metadata)@, inputs: deep(self.inputs@), output: self.output@ }
    }
}

impl KernelRun {
    pub fn new(
        provenance: WorkProvenance,
        kernel: TileKernel,
        inputs: Vec<KernelOperand>,
        output: ShardView,
        requirements: KernelRequirements,
    ) -> (r: Self)
        ensures
            r@ == (RunModel {
                metadata: MetadataModel {
                    provenance,
                    kernel: kernel@,
                    requirements: requirements@,
                },
                inputs: deep(inputs@),
                output: output@,
            }),
    {
        KernelRun {
            metadata: Arc::new(KernelRunMetadata { provenance, kernel, requirements }),
            inputs,
            output,
        }
    }
}

impl Model for KernelRun {
    fn duplicate(&self) -> (r: Self) {
        KernelRun {
            metadata: self.metadata.clone(),
            inputs: duplicate_all(&self.inputs),
            output: self.output.duplicate(),
        }
    }

    fn same(&self, other: &Self) -> (b: bool) {
        self.metadata.same(&other.metadata) && same_all(&self.inputs, &other.inputs)
            && self.output.same(&other.output)
    }
}

#[derive(Clone, Copy, Debug, PartialEq, Eq, Structural)]
pub enum LocalCopyPattern {
    Contiguous,
    Strided { rows: u32, row_bytes: u32, source_stride: u32, destination_stride: u32 },
}

impl Default for LocalCopyPattern {
    fn default() -> (r: Self)
        ensures
            r == LocalCopyPattern::Contiguous,
    {
        LocalCopyPattern::Contiguous
    }
}

#[derive(Clone, Copy, Debug, PartialEq, Eq, Structural)]
pub struct LocalCopy {
    pub source: LowShardId,
    pub source_offset: u32,
    pub destination: LowShardId,
    pub destination_offset: u32,
    pub bytes: u32,
    pub pattern: LocalCopyPattern,
}

#[derive(Clone, Copy, Debug, PartialEq, Eq, Structural)]
pub struct RepeatCarried {
    pub initial: LowShardId,
    pub argument: LowShardId,
    pub yielded: LowShardId,
    pub result: LowShardId,
}

#[derive(Clone, Copy, Debug, PartialEq, Eq, Structural)]
pub struct RepeatInvariant {
    pub input: LowShardId,
    pub argument: LowShardId,
}

#[derive(Debug)]
pub struct RepeatIterated {
    pub inputs: Vec<LowShardId>,
    pub argument: LowShardId,
    /// Placement must assign entries consecutively at this byte stride.
    pub stride_bytes: u32,
    pub alignment: u32,
}

/// Abstract value of a [`RepeatIterated`].
pub struct IteratedModel {
    pub inputs: Seq<LowShardId>,
    pub argument: LowShardId,
    pub stride_bytes: u32,
    pub alignment: u32,
}

impl View for RepeatIterated {
    type V = IteratedModel;

    open spec fn view(&self) -> IteratedModel {
        IteratedModel {
            inputs: self.inputs@,
            argument: self.argument,
            stride_bytes: self.stride_bytes,
            alignment: self.alignment,
        }
    }
}

#[derive(Clone, Copy, Debug, PartialEq, Eq, Structural)]
pub enum TileWork {
    /// All tiles encounter a phase marker, including tiles without transfers.
    Exchange(ExchangePhaseId),
    LocalCopy(LocalCopyId),
    Kernel(KernelRunId),
    Repeat(RepeatRunId),
    Checkpoint(OperationId, u8),
}

#[derive(Debug)]
pub struct TileWorkList {
    pub tile: u16,
    pub work: Vec<TileWork>,
}

/// Abstract value of a [`TileWorkList`].
pub struct WorkListModel {
    pub tile: u16,
    pub work: Seq<TileWork>,
}

impl View for TileWorkList {
    type V = WorkListModel;

    open spec fn view(&self) -> WorkListModel {
        WorkListModel { tile: self.tile, work: self.work@ }
    }
}

#[derive(Debug)]
pub struct RepeatRun {
    pub provenance: WorkProvenance,
    pub count: u32,
    pub carried: Vec<RepeatCarried>,
    pub invariants: Vec<RepeatInvariant>,
    pub iterated: Vec<RepeatIterated>,
    pub body: Box<TileWorkList>,
}

/// Abstract value of a [`RepeatRun`].
pub struct RepeatModel {
    pub provenance: WorkProvenance,
    pub count: u32,
    pub carried: Seq<RepeatCarried>,
    pub invariants: Seq<RepeatInvariant>,
    pub iterated: Seq<IteratedModel>,
    pub body: WorkListModel,
}

impl View for RepeatRun {
    type V = RepeatModel;

    open spec fn view(&self) -> RepeatModel {
        RepeatModel {
            provenance: self.provenance,
            count: self.count,
            carried: self.carried@,
            invariants: self.invariants@,
            iterated: deep(self.iterated@),
            body: (*self.body)@,
        }
    }
}

#[derive(Clone, Copy, Debug)]
pub enum TileWorkRef<'a> {
    Exchange(ExchangePhaseId),
    LocalCopy(&'a LocalCopy),
    Kernel(&'a KernelRun),
    Repeat(&'a RepeatRun),
    Checkpoint(OperationId, u8),
}

#[derive(Debug)]
pub struct LowProgram {
    pub tile_count: u16,
    pub shards: Vec<LowShard>,
    pub exchange_phases: Vec<ExchangePhase>,
    pub inputs: Vec<LowInput>,
    /// Compact per-tile ordering. Non-exchange entries index the arenas below.
    pub tiles: Vec<TileWorkList>,
    /// Tile-specific kernel operands and outputs, with shared call metadata.
    pub kernel_runs: Vec<KernelRun>,
    pub local_copies: Vec<LocalCopy>,
    pub repeat_runs: Vec<RepeatRun>,
    /// Canonical materialization of every mid-level value that reaches tile
    /// lowering. Diagnostic metadata uses this without adding device copies.
    pub values: Vec<LowValue>,
    pub outputs: Vec<LowValue>,
}

impl LowProgram {
    /// The entry refers to an existing element of the arena it indexes.
    pub open spec fn resolves(&self, work: TileWork) -> bool {
        match work {
            TileWork::Exchange(_) => true,
            TileWork::LocalCopy(id) => id.0 < self.local_copies@.len(),
            TileWork::Kernel(id) => id.0 < self.kernel_runs@.len(),
            TileWork::Repeat(id) => id.0 < self.repeat_runs@.len(),
            TileWork::Checkpoint(_, _) => true,
        }
    }

    /// What an entry refers to.
    pub open spec fn referent<'a>(&'a self, work: TileWork) -> TileWorkRef<'a> {
        match work {
            TileWork::Exchange(id) => TileWorkRef::Exchange(id),
            TileWork::LocalCopy(id) => TileWorkRef::LocalCopy(&self.local_copies@[id.0 as int]),
            TileWork::Kernel(id) => TileWorkRef::Kernel(&self.kernel_runs@[id.0 as int]),
            TileWork::Repeat(id) => TileWorkRef::Repeat(&self.repeat_runs@[id.0 as int]),
            TileWork::Checkpoint(operation, breakpoint) => TileWorkRef::Checkpoint(
                operation,
                breakpoint,
            ),
        }
    }

    /// Resolves the compact schedule entries of a tile, in order.
    pub fn work<'a>(&'a self, tile: &'a TileWorkList) -> (r: Vec<TileWorkRef<'a>>)
        requires
            forall|i: int| 0 <= i < tile.work@.len() ==> self.resolves(#[trigger] tile.work@[i]),
        ensures
            r@.len() == tile.work@.len(),
            forall|i: int|
                0 <= i < tile.work@.len() ==> #[trigger] r@[i] == self.referent(tile.work@[i]),
    {
        let mut resolved: Vec<TileWorkRef<'a>> = Vec::new();
        let mut i: usize = 0;
        while i < tile.work.len()
            invariant
                i <= tile.work@.len(),
                forall|i: int|
                    0 <= i < tile.work@.len() ==> self.resolves(#[trigger] tile.work@[i]),
                resolved@.len() == i,
                forall|k: int|
                    0 <= k < i ==> #[trigger] resolved@[k] == self.referent(tile.work@[k]),
            decreases tile.work@.len() - i,
        {
            assert(self.resolves(tile.work@[i as int]));
            resolved.push(
                match tile.work[i] {
                    TileWork::Exchange(id) => TileWorkRef::Exchange(id),
                    TileWork::LocalCopy(id) => TileWorkRef::LocalCopy(
                        &self.local_copies[id.0 as usize],
                    ),
                    TileWork::Kernel(id) => TileWorkRef::Kernel(&self.kernel_runs[id.0 as usize]),
                    TileWork::Repeat(id) => TileWorkRef::Repeat(&self.repeat_runs[id.0 as usize]),
                    TileWork::Checkpoint(operation, breakpoint) => TileWorkRef::Checkpoint(
                        operation,
                        breakpoint,
                    ),
                },
            );
            i += 1;
        }
        resolved
    }
}

#[derive(Clone, Copy, Debug, PartialEq, Eq, Structural)]
pub enum LowLoweringError {
    /// Lowering requires a nonzero tile count.
    EmptyTileGroup,
    /// A value declares more tiles than the schedule has, or none.
    TileCountMismatch { value: MidValueId, declared: u16, scheduled: u16 },
    /// The value does not exist.
    UnknownValue(MidValueId),
    /// The operation must have exactly one result.
    ResultArity,
    /// An operator operation is missing its selected whole-device plan.
    MissingOperatorPlan,
    /// The operator plan is incompatible with its values or block dimensions.
    InvalidOperatorPlan,
    /// A conversion operation is missing its selected plan. Lowering gathers the
    /// sources of such a conversion and does not give this error.
    MissingConversionPlan,
    /// The conversion plan is incompatible with its input or output.
    InvalidConversionPlan,
    /// The repeat is inconsistent with its inputs, arguments, yields or results.
    InvalidRepeat,
    /// The repeat's carried value cannot alias its body argument.
    RepeatRequiresInPlace(usize),
    /// The iterated input cannot be represented as equal contiguous blocks.
    InvalidIteratedBlocks(usize),
    /// Too many logical shards or exchange phases.
    IdOverflow,
    /// Invalid tensor layout.
    Layout(LayoutError),
    /// Invalid tensor storage view.
    Storage(StorageError),
}

pub type LowLoweringResult<T> = Result<T, LowLoweringError>;

} // verus!
