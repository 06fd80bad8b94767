//! Block graphs: the allocations of all tiles with one list of operations in
//! program order, and the steps that extend them.

use crate::copies::{coalesce_local_copies, coalesced, on_tile, pair_spans, paired};
use crate::low::{
    ExchangePhaseId, KernelRunId, LocalCopy, LocalCopyId, LowLoweringError, LowShard, LowShardId,
    RepeatRunId, ShardDefinition, ShardModel, ShardView, ViewModel, WorkProvenance,
};
use crate::mid::{KernelModel, MidValueId, OperationId, TileKernelSpec};
use crate::model::{copy_all, deep, group_deep};
use crate::state::narrow_from;
use crate::target::{spans_are, Target};
use crate::tensor::{
    ByteSpan, ElementOrder, FormatModel, LayoutError, Precision, ShardExtent, StorageError,
    TensorFormat, TensorType, TypeModel,
};
use vstd::prelude::*;

verus! {

// ---------------------------------------------------------------- types

/// Why a block graph cannot be built.
#[derive(Clone, Copy, Debug, PartialEq, Eq, Structural)]
pub enum ExpansionError {
    /// The operation has the wrong number of results.
    ResultArity,
    /// The plan is incompatible with its values.
    InvalidOperatorPlan,
    /// The copy is incompatible with its values or with the requested policy.
    InvalidCopyPlan,
    /// The value does not exist.
    UnknownValue(MidValueId),
    /// Too many blocks or operations.
    IdOverflow,
    /// Invalid tensor layout.
    Layout(LayoutError),
    /// Invalid tensor storage view.
    Storage(StorageError),
}

pub type ExpansionResult<T> = Result<T, ExpansionError>;

/// The order in which bytes travel.
#[derive(Clone, Copy, Debug, PartialEq, Eq, Structural)]
pub enum CopyOrder {
    /// By coordinates.
    Semantic,
    /// By addresses.
    Physical,
    /// Panel by panel.
    Panels,
}

/// One source with all that receive it.
#[derive(Debug)]
pub struct BlockExchange {
    pub source: ShardView,
    pub destinations: Vec<ShardView>,
    pub order: CopyOrder,
}

/// Abstract value of a [`BlockExchange`].
pub struct BlockExchangeModel {
    pub source: ViewModel,
    pub destinations: Seq<ViewModel>,
    pub order: CopyOrder,
}

impl View for BlockExchange {
    type V = BlockExchangeModel;

    open spec fn view(&self) -> BlockExchangeModel {
        BlockExchangeModel {
            source: self.source@,
            destinations: deep(self.destinations@),
            order: self.order,
        }
    }
}

#[derive(Debug)]
pub struct BlockPhase {
    pub id: ExchangePhaseId,
    pub provenance: WorkProvenance,
    pub transfers: Vec<BlockExchange>,
}

/// Abstract value of a [`BlockPhase`].
pub struct BlockPhaseModel {
    pub id: ExchangePhaseId,
    pub provenance: WorkProvenance,
    pub transfers: Seq<BlockExchangeModel>,
}

impl View for BlockPhase {
    type V = BlockPhaseModel;

    open spec fn view(&self) -> BlockPhaseModel {
        BlockPhaseModel {
            id: self.id,
            provenance: self.provenance,
            transfers: deep(self.transfers@),
        }
    }
}

/// What a block operation runs.
#[derive(Debug)]
pub enum BlockKernel {
    Tile(TileKernelSpec),
    /// Clears a range of bytes of its output.
    FillZero { offset: u32, bytes: u32, padding_only: bool },
}

/// Abstract value of a [`BlockKernel`].
pub enum BlockKernelModel {
    Tile(KernelModel),
    FillZero { offset: u32, bytes: u32, padding_only: bool },
}

impl View for BlockKernel {
    type V = BlockKernelModel;

    open spec fn view(&self) -> BlockKernelModel {
        match self {
            BlockKernel::Tile(kernel) => BlockKernelModel::Tile(kernel@),
            BlockKernel::FillZero { offset, bytes, padding_only } => BlockKernelModel::FillZero {
                offset: *offset,
                bytes: *bytes,
                padding_only: *padding_only,
            },
        }
    }
}

/// A kernel with its operands.
#[derive(Debug)]
pub struct BlockRun {
    pub provenance: WorkProvenance,
    pub kernel: BlockKernel,
    pub inputs: Vec<ShardView>,
    pub outputs: Vec<ShardView>,
    /// Useful and actual arithmetic of a product.
    pub product_flops: Option<(u64, u64)>,
}

/// Abstract value of a [`BlockRun`].
pub struct BlockRunModel {
    pub provenance: WorkProvenance,
    pub kernel: BlockKernelModel,
    pub inputs: Seq<ViewModel>,
    pub outputs: Seq<ViewModel>,
    pub product_flops: Option<(u64, u64)>,
}

impl View for BlockRun {
    type V = BlockRunModel;

    open spec fn view(&self) -> BlockRunModel {
        BlockRunModel {
            provenance: self.provenance,
            kernel: self.kernel@,
            inputs: deep(self.inputs@),
            outputs: deep(self.outputs@),
            product_flops: self.product_flops,
        }
    }
}

/// One entry of a block graph, in program order.
#[derive(Clone, Copy, Debug, PartialEq, Eq, Structural)]
pub enum BlockOperation {
    Exchange(ExchangePhaseId),
    Compute { tile: u16, run: KernelRunId },
    Copy { tile: u16, copy: LocalCopyId },
    Repeat(RepeatRunId),
    Checkpoint(OperationId, u8),
}

/// The parts of one value.
#[derive(Debug)]
pub struct ViewList {
    pub views: Vec<ShardView>,
}

impl View for ViewList {
    type V = Seq<ViewModel>;

    open spec fn view(&self) -> Seq<ViewModel> {
        deep(self.views@)
    }
}

/// A block graph under construction.
#[derive(Debug)]
pub struct TileGraphBuilder {
    pub tile_count: u16,
    pub shards: Vec<LowShard>,
    /// Type of every value.
    pub types: Vec<TensorType>,
    /// Parts of every value.
    pub bindings: Vec<ViewList>,
    pub phases: Vec<BlockPhase>,
    pub kernel_runs: Vec<BlockRun>,
    pub local_copies: Vec<LocalCopy>,
    pub operations: Vec<BlockOperation>,
}

/// Abstract value of a [`TileGraphBuilder`].
pub struct BuilderModel {
    pub tile_count: u16,
    pub shards: Seq<ShardModel>,
    pub types: Seq<TypeModel>,
    pub bindings: Seq<Seq<ViewModel>>,
    pub phases: Seq<BlockPhaseModel>,
    pub kernel_runs: Seq<BlockRunModel>,
    pub local_copies: Seq<LocalCopy>,
    pub operations: Seq<BlockOperation>,
}

impl View for TileGraphBuilder {
    type V = BuilderModel;

    open spec fn view(&self) -> BuilderModel {
        BuilderModel {
            tile_count: self.tile_count,
            shards: deep(self.shards@),
            types: deep(self.types@),
            bindings: deep(self.bindings@),
            phases: deep(self.phases@),
            kernel_runs: deep(self.kernel_runs@),
            local_copies: self.local_copies@,
            operations: self.operations@,
        }
    }
}

/// What a step leaves: the new graph, or an error.
pub type BlockStep = Result<BuilderModel, ExpansionError>;

/// A step's result: the graph it leaves with what it hands back.
pub type BlockStepWith<T> = Result<(BuilderModel, T), ExpansionError>;

/// `r` is what `step` promises.
pub open spec fn built(r: ExpansionResult<()>, after: BuilderModel, step: BlockStep) -> bool {
    match r {
        Ok(_) => step == Ok::<BuilderModel, ExpansionError>(after),
        Err(e) => step == Err::<BuilderModel, ExpansionError>(e),
    }
}

/// `r` hands back what `step` promises.
pub open spec fn yielded<T>(r: ExpansionResult<T>, after: BuilderModel, step: BlockStepWith<T>) -> bool {
    match r {
        Ok(value) => step == Ok::<(BuilderModel, T), ExpansionError>((after, value)),
        Err(e) => step == Err::<(BuilderModel, T), ExpansionError>(e),
    }
}

/// `r` is the expected value, or the expected error.
pub open spec fn obtained<T: View>(
    r: ExpansionResult<T>,
    expected: Result<T::V, ExpansionError>,
) -> bool {
    match r {
        Ok(value) => expected == Ok::<T::V, ExpansionError>(value@),
        Err(e) => expected == Err::<T::V, ExpansionError>(e),
    }
}

/// `r` has the expected elements, or is the expected error.
pub open spec fn obtained_all<T: View>(
    r: ExpansionResult<Vec<T>>,
    expected: Result<Seq<T::V>, ExpansionError>,
) -> bool {
    match r {
        Ok(values) => expected == Ok::<Seq<T::V>, ExpansionError>(deep(values@)),
        Err(e) => expected == Err::<Seq<T::V>, ExpansionError>(e),
    }
}

/// Pairing two lists of bytes fails where the lists differ in length, and where
/// an address does not fit.
pub open spec fn pairing_error(e: LowLoweringError) -> ExpansionError {
    match e {
        LowLoweringError::Storage(e) => ExpansionError::Storage(e),
        _ => ExpansionError::InvalidCopyPlan,
    }
}

// ---------------------------------------------------------------- device

/// What movement between blocks asks of the device, beyond storage geometry.
pub trait BlockTarget: Target {
    /// Bytes of a rectangle inside an allocation, panel by panel.
    spec fn spec_panel_spans(
        &self,
        format: FormatModel,
        allocation: Seq<ShardExtent>,
        view: Seq<ShardExtent>,
    ) -> Result<Seq<ByteSpan>, StorageError>;

    fn panel_byte_spans(
        &self,
        format: &TensorFormat,
        allocation: &[ShardExtent],
        view: &[ShardExtent],
    ) -> (r: Result<Vec<ByteSpan>, StorageError>)
        ensures
            spans_are(r, self.spec_panel_spans(format@, allocation@, view@)),
    ;

    /// Rows and columns of a panel that can be exchanged.
    spec fn spec_panel_shape(&self, format: FormatModel) -> Option<(u32, u32)>;

    fn exchange_panel_shape(&self, format: &TensorFormat) -> (r: Option<(u32, u32)>)
        ensures
            r == self.spec_panel_shape(format@),
            r matches Some((rows, columns)) ==> rows > 0 && columns > 0,
    ;

    /// Whether panels of one format can be received as panels of the other.
    spec fn spec_exchanges_micro_panels(&self, from: FormatModel, to: FormatModel) -> bool;

    fn supports_micro_panel_exchange(&self, from: &TensorFormat, to: &TensorFormat) -> (r: bool)
        ensures
            r == self.spec_exchanges_micro_panels(from@, to@),
    ;

    /// Columns that one product can write to a result in the given order.
    spec fn spec_output_group(&self, order: ElementOrder) -> Option<u32>;

    fn gemm_output_group(&self, order: ElementOrder) -> (r: Option<u32>)
        ensures
            r == self.spec_output_group(order),
            r matches Some(group) ==> group > 0,
    ;

    /// Columns of a panel that keeps its addresses when it is sent on.
    spec fn spec_column_grain(&self, order: ElementOrder, precision: Precision) -> Option<u32>;

    fn retained_linear_column_grain(&self, order: ElementOrder, precision: Precision) -> (r: Option<
        u32,
    >)
        ensures
            r == self.spec_column_grain(order, precision),
    ;

    /// Bytes of an allocation outside the given rectangles, in address order.
    spec fn spec_uncovered(
        &self,
        format: FormatModel,
        allocation: Seq<ShardExtent>,
        regions: Seq<Seq<ShardExtent>>,
        order: CopyOrder,
    ) -> Result<Seq<ByteSpan>, StorageError>;

    fn uncovered_bytes(
        &self,
        format: &TensorFormat,
        allocation: &[ShardExtent],
        regions: &Vec<Region>,
        order: CopyOrder,
    ) -> (r: Result<Vec<ByteSpan>, StorageError>)
        ensures
            spans_are(r, self.spec_uncovered(format@, allocation@, deep(regions@), order)),
    ;

    /// How a destination is written by the given copies.
    spec fn spec_geometry(
        &self,
        format: FormatModel,
        allocation: Seq<ShardExtent>,
        mappings: Seq<MappingModel>,
        order: CopyOrder,
    ) -> Result<DestinationGeometry, StorageError>;

    fn destination_geometry(
        &self,
        format: &TensorFormat,
        allocation: &[ShardExtent],
        mappings: &Vec<CopyMapping>,
        order: CopyOrder,
    ) -> (r: Result<DestinationGeometry, StorageError>)
        ensures
            r == self.spec_geometry(format@, allocation@, deep(mappings@), order),
    ;

    /// Cycles to exchange bytes in a number of pieces.
    spec fn spec_exchange_cycles(&self, bytes: u64, fragments: u64) -> u64;

    fn exchange_work_cycles(&self, bytes: u64, fragments: u64) -> (r: u64)
        ensures
            r == self.spec_exchange_cycles(bytes, fragments),
    ;

    /// Cycles to rearrange row-major elements into a block.
    spec fn spec_rearrange_cycles(&self, format: FormatModel, extents: Seq<ShardExtent>) -> u64;

    fn rearrange_cycles(&self, format: &TensorFormat, extents: &[ShardExtent]) -> (r: u64)
        ensures
            r == self.spec_rearrange_cycles(format@, extents@),
    ;

    /// How many bytes before its input the output of a cast starts that consumes
    /// the input.
    spec fn spec_cast_prefix_bytes(&self) -> u32;

    fn cast_prefix_bytes(&self) -> (r: u32)
        ensures
            r == self.spec_cast_prefix_bytes(),
            r <= i32::MAX,
    ;

    /// Axis and ranges of the chunks of a cast onto its own storage.
    spec fn spec_cast_chunks(&self, order: ElementOrder, dimensions: Seq<u32>) -> Option<
        (usize, Seq<(u32, u32)>),
    >;

    fn cast_chunks(&self, order: ElementOrder, dimensions: &[u32]) -> (r: Option<
        (usize, Vec<(u32, u32)>),
    >)
        ensures
            match r {
                Some((axis, ranges)) => self.spec_cast_chunks(order, dimensions@) == Some(
                    (axis, ranges@),
                ),
                None => self.spec_cast_chunks(order, dimensions@) is None,
            },
    ;

    /// Bytes depend on how a view lies in its allocation, on the size of the
    /// elements and on their order: not on where the allocation starts, nor on
    /// how its tensor is divided.
    proof fn spans_are_relative(&self, a: StoredView, b: StoredView)
        requires
            same_geometry(a, b),
        ensures
            self.spec_logical_spans(a.format, a.allocation, a.view) == self.spec_logical_spans(
                b.format,
                b.allocation,
                b.view,
            ),
            self.spec_physical_spans(a.format, a.allocation, a.view) == self.spec_physical_spans(
                b.format,
                b.allocation,
                b.view,
            ),
            self.spec_panel_spans(a.format, a.allocation, a.view) == self.spec_panel_spans(
                b.format,
                b.allocation,
                b.view,
            ),
    ;

    /// How a destination is written depends on the sizes and orders of elements
    /// and on the rectangles: not on how tensors are divided.
    proof fn geometry_ignores_ownership(
        &self,
        format: FormatModel,
        other_format: FormatModel,
        allocation: Seq<ShardExtent>,
        mappings: Seq<MappingModel>,
        other_mappings: Seq<MappingModel>,
        order: CopyOrder,
    )
        requires
            same_elements(format, other_format),
            same_mappings(mappings, other_mappings),
        ensures
            self.spec_geometry(format, allocation, mappings, order) == self.spec_geometry(
                other_format,
                allocation,
                other_mappings,
                order,
            ),
    ;
}

/// A view with its storage.
pub struct StoredView {
    pub format: FormatModel,
    pub allocation: Seq<ShardExtent>,
    pub view: Seq<ShardExtent>,
}

/// Elements of the same size in the same order.
pub open spec fn same_elements(a: FormatModel, b: FormatModel) -> bool {
    a.precision == b.precision && a.layout.order == b.layout.order
}

/// One axis of a view lies in its allocation as the other does.
pub open spec fn same_axis(
    allocation: ShardExtent,
    view: ShardExtent,
    other_allocation: ShardExtent,
    other_view: ShardExtent,
) -> bool {
    &&& allocation.physical_end - allocation.start == other_allocation.physical_end
        - other_allocation.start
    &&& view.start - allocation.start == other_view.start - other_allocation.start
    &&& view.logical_end - allocation.start == other_view.logical_end - other_allocation.start
    &&& view.physical_end - allocation.start == other_view.physical_end - other_allocation.start
}

/// Two views that lie in their allocations alike, with elements alike.
pub open spec fn same_geometry(a: StoredView, b: StoredView) -> bool {
    &&& same_elements(a.format, b.format)
    &&& lies_inside(a.view, a.allocation)
    &&& lies_inside(b.view, b.allocation)
    &&& a.view.len() == b.view.len()
    &&& forall|i: int|
        0 <= i < a.view.len() ==> same_axis(
            a.allocation[i],
            #[trigger] a.view[i],
            b.allocation[i],
            b.view[i],
        )
}

/// Copies of the same rectangles, with elements alike.
pub open spec fn same_mappings(a: Seq<MappingModel>, b: Seq<MappingModel>) -> bool {
    &&& a.len() == b.len()
    &&& forall|i: int|
        0 <= i < a.len() ==> same_elements((#[trigger] a[i]).format, b[i].format)
            && a[i].allocation == b[i].allocation && a[i].source == b[i].source
            && a[i].destination == b[i].destination
}

/// A rectangle.
#[derive(Debug)]
pub struct Region {
    pub extents: Vec<ShardExtent>,
}

impl View for Region {
    type V = Seq<ShardExtent>;

    open spec fn view(&self) -> Seq<ShardExtent> {
        self.extents@
    }
}

/// A copy into a destination, with the storage that it reads.
#[derive(Debug)]
pub struct CopyMapping {
    pub format: TensorFormat,
    pub allocation: Vec<ShardExtent>,
    pub source: Vec<ShardExtent>,
    pub destination: Vec<ShardExtent>,
}

/// Abstract value of a [`CopyMapping`].
pub struct MappingModel {
    pub format: FormatModel,
    pub allocation: Seq<ShardExtent>,
    pub source: Seq<ShardExtent>,
    pub destination: Seq<ShardExtent>,
}

impl View for CopyMapping {
    type V = MappingModel;

    open spec fn view(&self) -> MappingModel {
        MappingModel {
            format: self.format@,
            allocation: self.allocation@,
            source: self.source@,
            destination: self.destination@,
        }
    }
}

/// What a destination is like to write.
#[derive(Clone, Copy, Debug, PartialEq, Eq, Structural)]
pub struct DestinationGeometry {
    /// The copies go by coordinates.
    pub semantic: bool,
    pub destination_word_aligned: bool,
    pub same_element_order: bool,
    /// The destination has elements that no copy writes.
    pub padding: bool,
    pub bytes: u32,
    /// Pieces of a direct exchange, where there can be one.
    pub fragments: Option<u64>,
}

// ---------------------------------------------------------------- lookup

/// The block with the given id.
pub open spec fn block_of(shards: Seq<ShardModel>, id: LowShardId) -> Result<
    ShardModel,
    ExpansionError,
> {
    if id.0 < shards.len() {
        Ok(shards[id.0 as int])
    } else {
        Err(ExpansionError::InvalidOperatorPlan)
    }
}

/// Adds a block.
pub open spec fn push_block(s: BuilderModel, block: ShardModel) -> BlockStepWith<LowShardId> {
    if s.shards.len() <= u32::MAX {
        let id = LowShardId(s.shards.len() as u32);
        Ok((BuilderModel { shards: s.shards.push(ShardModel { id, ..block }), ..s }, id))
    } else {
        Err(ExpansionError::IdOverflow)
    }
}

/// Changes what a block stands for.
pub open spec fn rebind(s: BuilderModel, id: LowShardId, definition: ShardDefinition) -> BlockStep {
    if id.0 < s.shards.len() {
        Ok(
            BuilderModel {
                shards: s.shards.update(
                    id.0 as int,
                    ShardModel { definition, ..s.shards[id.0 as int] },
                ),
                ..s
            },
        )
    } else {
        Err(ExpansionError::InvalidOperatorPlan)
    }
}

/// The parts of a value.
pub open spec fn value_views(s: BuilderModel, value: MidValueId) -> Result<
    Seq<ViewModel>,
    ExpansionError,
> {
    if value.0 < s.bindings.len() && s.bindings[value.0 as int].len() > 0 {
        Ok(s.bindings[value.0 as int])
    } else {
        Err(ExpansionError::UnknownValue(value))
    }
}

/// The whole of a block.
pub open spec fn whole_block(shards: Seq<ShardModel>, id: LowShardId) -> Result<
    ViewModel,
    ExpansionError,
> {
    match block_of(shards, id) {
        Err(e) => Err(e),
        Ok(block) => Ok(ViewModel { shard: id, extents: block.extents }),
    }
}

/// `done` followed by the blocks of the views from `i` on. A part of a block is
/// not an allocation.
pub open spec fn allocations_from(
    shards: Seq<ShardModel>,
    views: Seq<ViewModel>,
    i: int,
    done: Seq<LowShardId>,
) -> Result<Seq<LowShardId>, ExpansionError>
    decreases views.len() - i,
{
    if i >= views.len() {
        Ok(done)
    } else {
        match block_of(shards, views[i].shard) {
            Err(e) => Err(e),
            Ok(block) => if views[i].extents != block.extents {
                Err(ExpansionError::InvalidOperatorPlan)
            } else {
                allocations_from(shards, views, i + 1, done.push(views[i].shard))
            },
        }
    }
}

/// The allocations of a value.
pub open spec fn allocation_shards(s: BuilderModel, value: MidValueId) -> Result<
    Seq<LowShardId>,
    ExpansionError,
> {
    match value_views(s, value) {
        Err(e) => Err(e),
        Ok(views) => allocations_from(s.shards, views, 0, Seq::empty()),
    }
}

/// Part of a view.
pub open spec fn narrowed_view(view: ViewModel, ranges: Seq<(usize, u32, u32)>) -> Result<
    ViewModel,
    ExpansionError,
> {
    match narrow_from(view.extents, ranges, 0) {
        Err(_) => Err(ExpansionError::InvalidOperatorPlan),
        Ok(extents) => Ok(ViewModel { extents, ..view }),
    }
}

/// The allocation behind a block, found by at most `fuel` alias steps.
pub open spec fn backing_within(shards: Seq<ShardModel>, id: LowShardId, fuel: nat) -> LowShardId
    decreases fuel,
{
    if fuel == 0 || id.0 >= shards.len() {
        id
    } else {
        match shards[id.0 as int].definition {
            ShardDefinition::Alias(source) => backing_within(shards, source, (fuel - 1) as nat),
            ShardDefinition::WritableAlias(source) => backing_within(
                shards,
                source,
                (fuel - 1) as nat,
            ),
            ShardDefinition::ShiftedAlias { source, .. } => backing_within(
                shards,
                source,
                (fuel - 1) as nat,
            ),
            _ => id,
        }
    }
}

/// The allocation behind a block.
pub open spec fn backing(shards: Seq<ShardModel>, id: LowShardId) -> LowShardId {
    backing_within(shards, id, shards.len())
}

// ---------------------------------------------------------------- bytes

/// A view lies inside the block that it names.
pub open spec fn lies_inside(view: Seq<ShardExtent>, block: Seq<ShardExtent>) -> bool {
    &&& view.len() == block.len()
    &&& forall|i: int|
        0 <= i < view.len() ==> block[i].start <= (#[trigger] view[i]).start <= view[i].logical_end
            <= view[i].physical_end <= block[i].physical_end
}

/// The block of a view that lies inside it.
pub open spec fn bound(shards: Seq<ShardModel>, view: ViewModel) -> Result<
    ShardModel,
    ExpansionError,
> {
    match block_of(shards, view.shard) {
        Err(e) => Err(e),
        Ok(block) => if lies_inside(view.extents, block.extents) {
            Ok(block)
        } else {
            Err(ExpansionError::Storage(StorageError::InvalidView))
        },
    }
}

/// Bytes of a rectangle in the given order.
pub open spec fn storage_spans<M: BlockTarget>(
    target: &M,
    format: FormatModel,
    allocation: Seq<ShardExtent>,
    view: Seq<ShardExtent>,
    order: CopyOrder,
) -> Result<Seq<ByteSpan>, StorageError> {
    match order {
        CopyOrder::Semantic => target.spec_logical_spans(format, allocation, view),
        CopyOrder::Physical => target.spec_physical_spans(format, allocation, view),
        CopyOrder::Panels => target.spec_panel_spans(format, allocation, view),
    }
}

/// Bytes of a view in the given order.
pub open spec fn block_spans<M: BlockTarget>(
    target: &M,
    shards: Seq<ShardModel>,
    view: ViewModel,
    order: CopyOrder,
) -> Result<Seq<ByteSpan>, ExpansionError> {
    match bound(shards, view) {
        Err(e) => Err(e),
        Ok(block) => match storage_spans(
            target,
            block.tensor_type.format,
            block.extents,
            view.extents,
            order,
        ) {
            Err(e) => Err(ExpansionError::Storage(e)),
            Ok(spans) => Ok(spans),
        },
    }
}

/// The copies that carry one view over to another on a tile. Between parts of
/// one allocation the bytes move in the order of the views.
pub open spec fn block_copies<M: BlockTarget>(
    target: &M,
    shards: Seq<ShardModel>,
    source: ViewModel,
    destination: ViewModel,
    order: CopyOrder,
) -> Result<Seq<LocalCopy>, ExpansionError> {
    match block_spans(target, shards, source, order) {
        Err(e) => Err(e),
        Ok(a) => match block_spans(target, shards, destination, order) {
            Err(e) => Err(e),
            Ok(b) => match paired(source.shard, destination.shard, a, b) {
                Err(e) => Err(pairing_error(e)),
                Ok(copies) => if backing(shards, source.shard) == backing(
                    shards,
                    destination.shard,
                ) {
                    Ok(copies)
                } else {
                    Ok(coalesced(copies))
                },
            },
        },
    }
}

/// `done` followed by the copies that carry one view over to another.
pub open spec fn with_block_copies<M: BlockTarget>(
    target: &M,
    shards: Seq<ShardModel>,
    source: ViewModel,
    destination: ViewModel,
    tile: u16,
    order: CopyOrder,
    done: Seq<(u16, LocalCopy)>,
) -> Result<Seq<(u16, LocalCopy)>, ExpansionError> {
    match block_copies(target, shards, source, destination, order) {
        Err(e) => Err(e),
        Ok(copies) => Ok(done + on_tile(copies, tile)),
    }
}

// ---------------------------------------------------------------- operations

/// Adds an exchange, unless it moves nothing.
pub open spec fn append_block_phase(
    s: BuilderModel,
    transfers: Seq<BlockExchangeModel>,
    provenance: WorkProvenance,
) -> BlockStep {
    if transfers.len() == 0 {
        Ok(s)
    } else if s.phases.len() > u32::MAX {
        Err(ExpansionError::IdOverflow)
    } else {
        let id = ExchangePhaseId(s.phases.len() as u32);
        Ok(
            BuilderModel {
                phases: s.phases.push(BlockPhaseModel { id, provenance, transfers }),
                operations: s.operations.push(BlockOperation::Exchange(id)),
                ..s
            },
        )
    }
}

/// Adds a kernel run.
pub open spec fn append_block_run(s: BuilderModel, tile: u16, run: BlockRunModel) -> BlockStep {
    if s.kernel_runs.len() > u32::MAX {
        Err(ExpansionError::IdOverflow)
    } else {
        Ok(
            BuilderModel {
                kernel_runs: s.kernel_runs.push(run),
                operations: s.operations.push(
                    BlockOperation::Compute {
                        tile,
                        run: KernelRunId(s.kernel_runs.len() as u32),
                    },
                ),
                ..s
            },
        )
    }
}

/// Adds the kernel runs from `i` on.
pub open spec fn append_block_runs_from(
    s: BuilderModel,
    runs: Seq<(u16, BlockRunModel)>,
    i: int,
) -> BlockStep
    decreases runs.len() - i,
{
    if i >= runs.len() {
        Ok(s)
    } else {
        match append_block_run(s, runs[i].0, runs[i].1) {
            Err(e) => Err(e),
            Ok(next) => append_block_runs_from(next, runs, i + 1),
        }
    }
}

/// Adds a copy.
pub open spec fn append_block_copy(s: BuilderModel, tile: u16, copy: LocalCopy) -> BlockStep {
    if s.local_copies.len() > u32::MAX {
        Err(ExpansionError::IdOverflow)
    } else {
        Ok(
            BuilderModel {
                local_copies: s.local_copies.push(copy),
                operations: s.operations.push(
                    BlockOperation::Copy {
                        tile,
                        copy: LocalCopyId(s.local_copies.len() as u32),
                    },
                ),
                ..s
            },
        )
    }
}

/// Adds the copies from `i` on.
pub open spec fn append_block_copies_from(
    s: BuilderModel,
    copies: Seq<(u16, LocalCopy)>,
    i: int,
) -> BlockStep
    decreases copies.len() - i,
{
    if i >= copies.len() {
        Ok(s)
    } else {
        match append_block_copy(s, copies[i].0, copies[i].1) {
            Err(e) => Err(e),
            Ok(next) => append_block_copies_from(next, copies, i + 1),
        }
    }
}

/// A run without counted arithmetic.
pub open spec fn plain_run(
    provenance: WorkProvenance,
    kernel: BlockKernelModel,
    inputs: Seq<ViewModel>,
    outputs: Seq<ViewModel>,
) -> BlockRunModel {
    BlockRunModel { provenance, kernel, inputs, outputs, product_flops: None }
}

// ---------------------------------------------------------------- carrying out

/// Whether a view lies inside a block.
pub fn is_inside(view: &Vec<ShardExtent>, block: &Vec<ShardExtent>) -> (r: bool)
    ensures
        r == lies_inside(view@, block@),
{
    if view.len() != block.len() {
        return false;
    }
    let mut i: usize = 0;
    while i < view.len()
        invariant
            i <= view@.len(),
            forall|k: int|
                0 <= k < i ==> block@[k].start <= (#[trigger] view@[k]).start
                    <= view@[k].logical_end <= view@[k].physical_end <= block@[k].physical_end,
        decreases view@.len() - i,
    {
        let part: ShardExtent = view[i];
        let all: ShardExtent = block[i];
        if part.start < all.start || part.logical_end < part.start || part.physical_end
            < part.logical_end || part.physical_end > all.physical_end {
            assert(view@[i as int] == part);
            return false;
        }
        i += 1;
    }
    true
}

pub fn pairing_failed(e: LowLoweringError) -> (r: ExpansionError)
    ensures
        r == pairing_error(e),
{
    match e {
        LowLoweringError::Storage(e) => ExpansionError::Storage(e),
        _ => ExpansionError::InvalidCopyPlan,
    }
}

/// Part of a view.
pub fn narrow_block_view(view: &ShardView, ranges: &[(usize, u32, u32)]) -> (r: ExpansionResult<
    ShardView,
>)
    ensures
        obtained(r, narrowed_view(view@, ranges@)),
{
    let mut extents = copy_all(view.extents.as_slice());
    let mut i: usize = 0;
    while i < ranges.len()
        invariant
            i <= ranges@.len(),
            narrow_from(view@.extents, ranges@, 0) == narrow_from(extents@, ranges@, i as int),
        decreases ranges@.len() - i,
    {
        let (axis, start, end) = ranges[i];
        if axis >= extents.len() {
            return Err(ExpansionError::InvalidOperatorPlan);
        }
        let extent: ShardExtent = extents[axis];
        if start < extent.start || end > extent.physical_end || start >= end {
            return Err(ExpansionError::InvalidOperatorPlan);
        }
        let kept: u32 = if end < extent.logical_end {
            end
        } else {
            extent.logical_end
        };
        let logical_end: u32 = if kept < start {
            start
        } else {
            kept
        };
        extents.set(
            axis,
            ShardExtent { axis: extent.axis, start, logical_end, physical_end: end },
        );
        i += 1;
    }
    Ok(ShardView { shard: view.shard, extents })
}

impl TileGraphBuilder {
    pub fn block(&self, id: LowShardId) -> (r: ExpansionResult<&LowShard>)
        ensures
            match r {
                Ok(block) => block_of(self@.shards, id) == Ok::<ShardModel, ExpansionError>(
                    block@,
                ),
                Err(e) => block_of(self@.shards, id) == Err::<ShardModel, ExpansionError>(e),
            },
            r is Ok ==> id.0 < self.shards@.len() && *r->Ok_0 == self.shards@[id.0 as int],
    {
        broadcast use group_deep;

        if (id.0 as usize) < self.shards.len() {
            Ok(&self.shards[id.0 as usize])
        } else {
            Err(ExpansionError::InvalidOperatorPlan)
        }
    }

    pub fn push_shard(&mut self, block: LowShard) -> (r: ExpansionResult<LowShardId>)
        ensures
            yielded(r, final(self)@, push_block(old(self)@, block@)),
    {
        broadcast use group_deep;

        let len = self.shards.len();
        if len > 0xffff_ffff {
            return Err(ExpansionError::IdOverflow);
        }
        let id = LowShardId(len as u32);
        let mut block = block;
        block.id = id;
        self.shards.push(block);
        Ok(id)
    }

    pub fn rebind(&mut self, id: LowShardId, definition: ShardDefinition) -> (r: ExpansionResult<()>)
        ensures
            built(r, final(self)@, rebind(old(self)@, id, definition)),
    {
        broadcast use group_deep;

        if (id.0 as usize) < self.shards.len() {
            let ghost before = self.shards@;
            self.shards[id.0 as usize].definition = definition;
            proof {
                let block = self.shards@[id.0 as int];
                assert(self.shards@ =~= before.update(id.0 as int, block));
                assert(deep(self.shards@) =~= deep(before).update(id.0 as int, block@));
            }
            Ok(())
        } else {
            Err(ExpansionError::InvalidOperatorPlan)
        }
    }

    /// The parts of a value.
    pub fn value_views(&self, value: MidValueId) -> (r: ExpansionResult<&Vec<ShardView>>)
        ensures
            match r {
                Ok(views) => value_views(self@, value) == Ok::<Seq<ViewModel>, ExpansionError>(
                    deep(views@),
                ) && views@.len() > 0,
                Err(e) => value_views(self@, value) == Err::<Seq<ViewModel>, ExpansionError>(e),
            },
    {
        broadcast use group_deep;

        if (value.0 as usize) < self.bindings.len() && self.bindings[value.0 as usize].views.len()
            > 0 {
            Ok(&self.bindings[value.0 as usize].views)
        } else {
            Err(ExpansionError::UnknownValue(value))
        }
    }

    pub fn full_view(&self, id: LowShardId) -> (r: ExpansionResult<ShardView>)
        ensures
            obtained(r, whole_block(self@.shards, id)),
    {
        let block = self.block(id)?;
        Ok(ShardView { shard: id, extents: copy_all(block.extents.as_slice()) })
    }

    /// The allocations of a value.
    pub fn allocation_shards(&self, value: MidValueId) -> (r: ExpansionResult<Vec<LowShardId>>)
        ensures
            match r {
                Ok(ids) => allocation_shards(self@, value) == Ok::<
                    Seq<LowShardId>,
                    ExpansionError,
                >(ids@),
                Err(e) => allocation_shards(self@, value) == Err::<
                    Seq<LowShardId>,
                    ExpansionError,
                >(e),
            },
    {
        broadcast use group_deep;

        let views = self.value_views(value)?;
        let ghost model = deep(views@);
        let mut ids: Vec<LowShardId> = Vec::new();
        assert(ids@ =~= Seq::<LowShardId>::empty());
        let mut i: usize = 0;
        while i < views.len()
            invariant
                i <= views@.len(),
                allocations_from(self@.shards, model, 0, Seq::empty()) == allocations_from(
                    self@.shards,
                    model,
                    i as int,
                    ids@,
                ),
            decreases views@.len() - i,
        {
            assert(model[i as int] == views@[i as int]@);
            let block = self.block(views[i].shard)?;
            if !crate::tensor::same_extents(
                views[i].extents.as_slice(),
                block.extents.as_slice(),
            ) {
                return Err(ExpansionError::InvalidOperatorPlan);
            }
            ids.push(views[i].shard);
            i += 1;
        }
        Ok(ids)
    }

    /// The allocation behind a block.
    pub fn backing(&self, id: LowShardId) -> (r: LowShardId)
        ensures
            r == backing(self@.shards, id),
    {
        broadcast use group_deep;

        let mut here = id;
        let mut remaining: usize = self.shards.len();
        while remaining > 0
            invariant
                remaining <= self.shards@.len(),
                backing(self@.shards, id) == backing_within(self@.shards, here, remaining as nat),
            decreases remaining,
        {
            if here.0 as usize >= self.shards.len() {
                return here;
            }
            match self.shards[here.0 as usize].definition {
                ShardDefinition::Alias(source) => {
                    here = source;
                },
                ShardDefinition::WritableAlias(source) => {
                    here = source;
                },
                ShardDefinition::ShiftedAlias { source, .. } => {
                    here = source;
                },
                _ => {
                    return here;
                },
            }
            remaining -= 1;
        }
        here
    }

    /// The block of a view that lies inside it.
    pub fn bind(&self, view: &ShardView) -> (r: ExpansionResult<&LowShard>)
        ensures
            match r {
                Ok(block) => bound(self@.shards, view@) == Ok::<ShardModel, ExpansionError>(
                    block@,
                ),
                Err(e) => bound(self@.shards, view@) == Err::<ShardModel, ExpansionError>(e),
            },
            r is Ok ==> view.shard.0 < self.shards@.len(),
    {
        let block = self.block(view.shard)?;
        if is_inside(&view.extents, &block.extents) {
            Ok(block)
        } else {
            Err(ExpansionError::Storage(StorageError::InvalidView))
        }
    }

    /// Bytes of a view in the given order.
    pub fn spans<M: BlockTarget>(&self, target: &M, view: &ShardView, order: CopyOrder) -> (r:
        ExpansionResult<Vec<ByteSpan>>)
        ensures
            match r {
                Ok(spans) => block_spans(target, self@.shards, view@, order) == Ok::<
                    Seq<ByteSpan>,
                    ExpansionError,
                >(spans@),
                Err(e) => block_spans(target, self@.shards, view@, order) == Err::<
                    Seq<ByteSpan>,
                    ExpansionError,
                >(e),
            },
    {
        let block = self.bind(view)?;
        let format = &block.tensor_type.format;
        let spans = match order {
            CopyOrder::Semantic => target.logical_byte_spans(
                format,
                block.extents.as_slice(),
                view.extents.as_slice(),
            ),
            CopyOrder::Physical => target.physical_byte_spans(
                format,
                block.extents.as_slice(),
                view.extents.as_slice(),
            ),
            CopyOrder::Panels => target.panel_byte_spans(
                format,
                block.extents.as_slice(),
                view.extents.as_slice(),
            ),
        };
        match spans {
            Ok(spans) => Ok(spans),
            Err(e) => Err(ExpansionError::Storage(e)),
        }
    }

    /// Adds to `copies` what carries one view over to another.
    pub fn append_span_copies<M: BlockTarget>(
        &self,
        target: &M,
        source: &ShardView,
        destination: &ShardView,
        tile: u16,
        copies: &mut Vec<(u16, LocalCopy)>,
        order: CopyOrder,
    ) -> (r: ExpansionResult<()>)
        ensures
            match r {
                Ok(_) => with_block_copies(
                    target,
                    self@.shards,
                    source@,
                    destination@,
                    tile,
                    order,
                    old(copies)@,
                ) == Ok::<Seq<(u16, LocalCopy)>, ExpansionError>(final(copies)@),
                Err(e) => with_block_copies(
                    target,
                    self@.shards,
                    source@,
                    destination@,
                    tile,
                    order,
                    old(copies)@,
                ) == Err::<Seq<(u16, LocalCopy)>, ExpansionError>(e),
            },
    {
        let a = self.spans(target, source, order)?;
        let b = self.spans(target, destination, order)?;
        let pairs = match pair_spans(source.shard, destination.shard, &a, &b) {
            Ok(pairs) => pairs,
            Err(e) => {
                return Err(pairing_failed(e));
            },
        };
        let joined = if self.backing(source.shard) == self.backing(destination.shard) {
            pairs
        } else {
            coalesce_local_copies(pairs)
        };
        let ghost before = copies@;
        let mut i: usize = 0;
        while i < joined.len()
            invariant
                i <= joined@.len(),
                copies@ == before + on_tile(joined@, tile).take(i as int),
            decreases joined@.len() - i,
        {
            copies.push((tile, joined[i]));
            i += 1;
            assert(copies@ =~= before + on_tile(joined@, tile).take(i as int));
        }
        assert(on_tile(joined@, tile).take(joined@.len() as int) =~= on_tile(joined@, tile));
        Ok(())
    }

    /// Adds an exchange, unless it moves nothing.
    pub fn append_exchange_phase(
        &mut self,
        transfers: Vec<BlockExchange>,
        provenance: WorkProvenance,
    ) -> (r: ExpansionResult<()>)
        ensures
            built(r, final(self)@, append_block_phase(old(self)@, deep(transfers@), provenance)),
    {
        broadcast use group_deep;

        if transfers.len() == 0 {
            return Ok(());
        }
        let len = self.phases.len();
        if len > 0xffff_ffff {
            return Err(ExpansionError::IdOverflow);
        }
        let id = ExchangePhaseId(len as u32);
        self.phases.push(BlockPhase { id, provenance, transfers });
        self.operations.push(BlockOperation::Exchange(id));
        Ok(())
    }

    /// Adds a kernel run.
    pub fn append_kernel(&mut self, tile: u16, run: BlockRun) -> (r: ExpansionResult<()>)
        ensures
            built(r, final(self)@, append_block_run(old(self)@, tile, run@)),
    {
        broadcast use group_deep;

        let len = self.kernel_runs.len();
        if len > 0xffff_ffff {
            return Err(ExpansionError::IdOverflow);
        }
        self.kernel_runs.push(run);
        self.operations.push(BlockOperation::Compute { tile, run: KernelRunId(len as u32) });
        Ok(())
    }

    /// Adds kernel runs.
    pub fn append_kernels(&mut self, runs: Vec<(u16, BlockRun)>) -> (r: ExpansionResult<()>)
        ensures
            built(r, final(self)@, append_block_runs_from(old(self)@, deep(runs@), 0)),
    {
        broadcast use group_deep;

        let ghost start = self@;
        let ghost model = deep(runs@);
        let ghost list = runs@;
        let mut runs = runs;
        let mut rest: Vec<(u16, BlockRun)> = Vec::new();
        while runs.len() > 0
            invariant
                runs@.len() + rest@.len() == list.len(),
                runs@ == list.take(runs@.len() as int),
                forall|k: int|
                    0 <= k < rest@.len() ==> rest@[k] == list[list.len() - 1 - k],
            decreases runs@.len(),
        {
            let ghost before = runs@;
            match runs.pop() {
                Some(run) => {
                    assert(run == before.last());
                    assert(runs@ =~= list.take(runs@.len() as int));
                    rest.push(run);
                },
                None => {},
            }
        }
        let ghost mut k: int = 0;
        while rest.len() > 0
            invariant
                0 <= k <= list.len(),
                rest@.len() == list.len() - k,
                forall|j: int|
                    0 <= j < rest@.len() ==> rest@[j] == list[list.len() - 1 - j],
                append_block_runs_from(start, model, 0) == append_block_runs_from(
                    self@,
                    model,
                    k,
                ),
            decreases rest@.len(),
        {
            match rest.pop() {
                Some((tile, run)) => {
                    assert(model[k] == (tile, run)@);
                    self.append_kernel(tile, run)?;
                    proof {
                        k = k + 1;
                    }
                },
                None => {},
            }
        }
        Ok(())
    }

    /// Adds a copy.
    pub fn append_local_copy(&mut self, tile: u16, copy: LocalCopy) -> (r: ExpansionResult<()>)
        ensures
            built(r, final(self)@, append_block_copy(old(self)@, tile, copy)),
    {
        let len = self.local_copies.len();
        if len > 0xffff_ffff {
            return Err(ExpansionError::IdOverflow);
        }
        self.local_copies.push(copy);
        self.operations.push(BlockOperation::Copy { tile, copy: LocalCopyId(len as u32) });
        Ok(())
    }

    /// Adds copies.
    pub fn append_copies(&mut self, copies: &Vec<(u16, LocalCopy)>) -> (r: ExpansionResult<()>)
        ensures
            built(r, final(self)@, append_block_copies_from(old(self)@, copies@, 0)),
    {
        let ghost start = self@;
        let mut i: usize = 0;
        while i < copies.len()
            invariant
                i <= copies@.len(),
                append_block_copies_from(start, copies@, 0) == append_block_copies_from(
                    self@,
                    copies@,
                    i as int,
                ),
            decreases copies@.len() - i,
        {
            self.append_local_copy(copies[i].0, copies[i].1)?;
            i += 1;
        }
        Ok(())
    }
}

/// A run without counted arithmetic.
pub fn new_plain_run(
    provenance: WorkProvenance,
    kernel: BlockKernel,
    inputs: Vec<ShardView>,
    outputs: Vec<ShardView>,
) -> (r: BlockRun)
    ensures
        r@ == plain_run(provenance, kernel@, deep(inputs@), deep(outputs@)),
{
    BlockRun { provenance, kernel, inputs, outputs, product_flops: None }
}

/// A list of one view.
pub fn one_view(view: ShardView) -> (r: Vec<ShardView>)
    ensures
        deep(r@) == seq![view@],
        r@.len() == 1,
{
    let mut views: Vec<ShardView> = Vec::new();
    views.push(view);
    assert(deep(views@) =~= seq![view@]);
    views
}

} // verus!
