//! Copies of whole values between blocks: choosing the regions, the order of
//! the bytes and the preparation of the destination, and scheduling copies that
//! need not wait for each other in one exchange.

use crate::block_exchange::append_materialization;
use crate::block_packing::{
    append_zero_range, in_row_major, row_major_type, CopyPolicy, PackingPolicy,
};
use crate::block_panels::{micro_panel_mappings, Mapping, ViewMapping};
use crate::block_regions::{offset_copy_mappings, window_view_mappings, AxisFactorView};
use crate::blocks::{
    allocation_shards, append_block_run, block_of, built, new_plain_run, one_view, plain_run,
    push_block, value_views, BlockKernel, BlockKernelModel, BlockStep, BlockStepWith, BlockTarget,
    BuilderModel, CopyOrder, ExpansionError, ExpansionResult, TileGraphBuilder,
};
use crate::low::{
    LowShard, LowShardId, ShardDefinition, ShardModel, ShardView, ViewModel, WorkProvenance,
    WorkReason,
};
use crate::materialize::{
    empty_batch, prepare_mapped_views, well_filed, BatchModel, MaterializationBatch,
};
use crate::mid::{KernelSpec, MidValueId, OperationId, TileKernelSpec};
use crate::model::{Model, copy_all, deep, duplicate_all, group_deep};
use crate::tensor::{
    AmpOrder, ByteSpan, ElementOrder, Layout, LayoutModel, MemoryClass, Precision, ShardExtent,
    TypeModel, AMP_COLUMN_MICRO,
};
use vstd::prelude::*;

verus! {

/// A copy of one value into another.
#[derive(Debug)]
pub struct CopyRequest {
    pub provenance: WorkProvenance,
    pub inputs: Vec<MidValueId>,
    pub results: Vec<MidValueId>,
    /// A view through which the source is read.
    pub view: Option<AxisFactorView>,
    /// Where the result starts in the (viewed) source.
    pub offsets: Vec<u32>,
    pub policy: CopyPolicy,
    pub packing: PackingPolicy,
}

/// Abstract value of a [`CopyRequest`].
pub struct RequestModel {
    pub provenance: WorkProvenance,
    pub inputs: Seq<MidValueId>,
    pub results: Seq<MidValueId>,
    pub view: Option<AxisFactorView>,
    pub offsets: Seq<u32>,
    pub policy: CopyPolicy,
    pub packing: PackingPolicy,
}

impl View for CopyRequest {
    type V = RequestModel;

    open spec fn view(&self) -> RequestModel {
        RequestModel {
            provenance: self.provenance,
            inputs: self.inputs@,
            results: self.results@,
            view: self.view,
            offsets: self.offsets@,
            policy: self.policy,
            packing: self.packing,
        }
    }
}

/// The copy keeps all coordinates.
pub open spec fn is_identity(request: RequestModel) -> bool {
    request.view is None && forall|i: int|
        0 <= i < request.offsets.len() ==> #[trigger] request.offsets[i] == 0
}

// ---------------------------------------------------------------- kernels

/// Runs a rearrangement on one tile.
pub open spec fn append_rearrangement(
    s: BuilderModel,
    tile: u16,
    from: LayoutModel,
    to: LayoutModel,
    source: ViewModel,
    destination: ViewModel,
    provenance: WorkProvenance,
) -> BlockStep {
    append_block_run(
        s,
        tile,
        plain_run(
            provenance,
            BlockKernelModel::Tile(KernelSpec::Rearrange { from, to }),
            seq![source],
            seq![destination],
        ),
    )
}

/// The resident part corresponds to the block: same tile, same useful elements.
pub open spec fn corresponds(source: ShardModel, view: ViewModel, block: ShardModel) -> bool {
    &&& source.tile == block.tile
    &&& view.extents.len() == block.extents.len()
    &&& forall|i: int|
        0 <= i < view.extents.len() ==> (#[trigger] view.extents[i]).start == block.extents[i].start
            && view.extents[i].logical_end == block.extents[i].logical_end
}

/// Rearranges corresponding blocks from `k` on.
pub open spec fn rearrange_from(
    s: BuilderModel,
    provenance: WorkProvenance,
    inputs: Seq<ViewModel>,
    outputs: Seq<LowShardId>,
    k: int,
) -> BlockStep
    decreases inputs.len() - k,
{
    if k >= inputs.len() {
        Ok(s)
    } else {
        match (block_of(s.shards, inputs[k].shard), block_of(s.shards, outputs[k])) {
            (Ok(source), Ok(block)) => if !corresponds(source, inputs[k], block) {
                Err(ExpansionError::InvalidCopyPlan)
            } else {
                match append_rearrangement(
                    s,
                    block.tile,
                    source.tensor_type.format.layout,
                    block.tensor_type.format.layout,
                    inputs[k],
                    ViewModel { shard: outputs[k], extents: block.extents },
                    provenance,
                ) {
                    Err(e) => Err(e),
                    Ok(next) => rearrange_from(next, provenance, inputs, outputs, k + 1),
                }
            },
            (Err(e), _) => Err(e),
            (_, Err(e)) => Err(e),
        }
    }
}

/// Rearranges every block where it is.
pub open spec fn local_rearrangement(
    s: BuilderModel,
    provenance: WorkProvenance,
    inputs: Seq<ViewModel>,
    outputs: Seq<LowShardId>,
) -> BlockStep {
    if inputs.len() != outputs.len() {
        Err(ExpansionError::InvalidCopyPlan)
    } else {
        rearrange_from(s, provenance, inputs, outputs, 0)
    }
}

/// The range is a whole number of micro columns.
pub open spec fn is_micro_aligned(extent: ShardExtent) -> bool {
    extent.physical_end % AMP_COLUMN_MICRO == extent.start % AMP_COLUMN_MICRO
}

/// A kernel can unpack the view into row-major order.
pub open spec fn can_unpack_view(block: ShardModel, view: ViewModel) -> bool {
    let rank = view.extents.len();
    &&& rank >= 2
    &&& block.tensor_type.format.precision == Precision::F16
    &&& match block.tensor_type.format.layout.order {
        ElementOrder::Amp(AmpOrder::Output) => is_micro_aligned(view.extents[rank - 1]),
        ElementOrder::Amp(AmpOrder::TransposedLeft) => is_micro_aligned(view.extents[rank - 2]),
        ElementOrder::BlockMajor(_) => true,
        _ => false,
    }
}

/// All views from `i` on can be unpacked.
pub open spec fn can_unpack_views_from(shards: Seq<ShardModel>, views: Seq<ViewModel>, i: int) -> Result<
    bool,
    ExpansionError,
>
    decreases views.len() - i,
{
    if i >= views.len() {
        Ok(true)
    } else {
        match block_of(shards, views[i].shard) {
            Err(e) => Err(e),
            Ok(block) => if can_unpack_view(block, views[i]) {
                can_unpack_views_from(shards, views, i + 1)
            } else {
                Ok(false)
            },
        }
    }
}

/// Row-major scratch storage for a view.
pub open spec fn unpacked_block(tensor_type: TypeModel, tile: u16, view: ViewModel) -> ShardModel {
    ShardModel {
        id: LowShardId(0),
        tile,
        tensor_type: row_major_type(tensor_type),
        extents: view.extents,
        definition: ShardDefinition::Staging,
    }
}

/// Unpacks the views from `i` on into scratch storage.
pub open spec fn unpack_views_from(
    s: BuilderModel,
    tensor_type: TypeModel,
    views: Seq<ViewModel>,
    provenance: WorkProvenance,
    i: int,
    done: Seq<ViewModel>,
) -> BlockStepWith<Seq<ViewModel>>
    decreases views.len() - i,
{
    if i >= views.len() {
        Ok((s, done))
    } else {
        match block_of(s.shards, views[i].shard) {
            Err(e) => Err(e),
            Ok(block) => match push_block(s, unpacked_block(tensor_type, block.tile, views[i])) {
                Err(e) => Err(e),
                Ok((grown, id)) => {
                    let staging = ViewModel { shard: id, extents: views[i].extents };
                    match append_rearrangement(
                        grown,
                        block.tile,
                        tensor_type.format.layout,
                        row_major_type(tensor_type).format.layout,
                        views[i],
                        staging,
                        provenance,
                    ) {
                        Err(e) => Err(e),
                        Ok(next) => unpack_views_from(
                            next,
                            tensor_type,
                            views,
                            provenance,
                            i + 1,
                            done.push(staging),
                        ),
                    }
                },
            },
        }
    }
}

/// Unpacks a value into row-major scratch storage, where a kernel can.
pub open spec fn unpack_value(
    s: BuilderModel,
    value: MidValueId,
    provenance: WorkProvenance,
) -> BlockStepWith<Option<Seq<ViewModel>>> {
    match value_views(s, value) {
        Err(e) => Err(e),
        Ok(views) => match can_unpack_views_from(s.shards, views, 0) {
            Err(e) => Err(e),
            Ok(false) => Ok((s, None)),
            Ok(true) => if value.0 >= s.types.len() {
                Err(ExpansionError::UnknownValue(value))
            } else {
                match unpack_views_from(
                    s,
                    s.types[value.0 as int],
                    views,
                    provenance,
                    0,
                    Seq::empty(),
                ) {
                    Err(e) => Err(e),
                    Ok((next, staging)) => Ok((next, Some(staging))),
                }
            },
        },
    }
}

// ---------------------------------------------------------------- regions

/// A kernel has to unpack this order before its coordinates can be read.
pub open spec fn needs_unpacking(order: ElementOrder) -> bool {
    match order {
        ElementOrder::Amp(AmpOrder::Output) => true,
        ElementOrder::Amp(AmpOrder::TransposedLeft) => true,
        ElementOrder::BlockMajor(_) => true,
        _ => false,
    }
}

/// Only bytes in their order may be copied.
pub open spec fn is_physical(policy: CopyPolicy) -> bool {
    policy == CopyPolicy::DirectRetile || policy == CopyPolicy::GatherThenMulticast
}

/// The order of the bytes of a copy by coordinates.
pub open spec fn order_of(policy: CopyPolicy, source: ElementOrder, output: ElementOrder) -> CopyOrder {
    if is_physical(policy) || (policy == CopyPolicy::Automatic && source == output) {
        CopyOrder::Physical
    } else {
        CopyOrder::Semantic
    }
}

/// The regions of a copy through a view, with the order of their bytes.
pub open spec fn viewed_regions<M: BlockTarget>(
    target: &M,
    s: BuilderModel,
    request: RequestModel,
    view: AxisFactorView,
    inputs: Seq<ViewModel>,
    outputs: Seq<LowShardId>,
    shape: Seq<u32>,
    source_order: ElementOrder,
) -> BlockStepWith<(Seq<Mapping>, CopyOrder)> {
    match window_view_mappings(s.shards, inputs, shape, outputs, view, request.offsets) {
        Err(e) => Err(e),
        Ok(mappings) => match (if request.packing == PackingPolicy::Staged {
            Ok(None)
        } else {
            micro_panel_mappings(target, s.shards, mappings)
        }) {
            Err(e) => Err(e),
            Ok(Some(physical)) => Ok((s, physical)),
            Ok(None) => if is_physical(request.policy) {
                Err(ExpansionError::InvalidCopyPlan)
            } else if needs_unpacking(source_order) {
                match unpack_value(
                    s,
                    request.inputs[0],
                    WorkProvenance {
                        reason: WorkReason::LayoutRearrangement,
                        ..request.provenance
                    },
                ) {
                    Err(e) => Err(e),
                    Ok((_, None)) => Err(ExpansionError::InvalidOperatorPlan),
                    Ok((next, Some(unpacked))) => match window_view_mappings(
                        next.shards,
                        unpacked,
                        shape,
                        outputs,
                        view,
                        request.offsets,
                    ) {
                        Err(e) => Err(e),
                        Ok(mappings) => Ok((next, (mappings, CopyOrder::Semantic))),
                    },
                }
            } else {
                Ok((s, (mappings, CopyOrder::Semantic)))
            },
        },
    }
}

/// The regions of a copy, with the order of their bytes.
pub open spec fn copy_regions<M: BlockTarget>(
    target: &M,
    s: BuilderModel,
    request: RequestModel,
    inputs: Seq<ViewModel>,
    outputs: Seq<LowShardId>,
    shape: Seq<u32>,
    output_order: ElementOrder,
) -> BlockStepWith<(Seq<Mapping>, CopyOrder)> {
    if inputs.len() == 0 {
        Err(ExpansionError::InvalidOperatorPlan)
    } else {
        match block_of(s.shards, inputs[0].shard) {
            Err(e) => Err(e),
            Ok(source) => match request.view {
                Some(view) => viewed_regions(
                    target,
                    s,
                    request,
                    view,
                    inputs,
                    outputs,
                    shape,
                    source.tensor_type.format.layout.order,
                ),
                None => match offset_copy_mappings(s.shards, inputs, outputs, request.offsets) {
                    Err(e) => Err(e),
                    Ok(mappings) => Ok(
                        (
                            s,
                            (
                                mappings,
                                order_of(
                                    request.policy,
                                    source.tensor_type.format.layout.order,
                                    output_order,
                                ),
                            ),
                        ),
                    ),
                },
            },
        }
    }
}

/// Some copy goes into the block.
pub open spec fn is_written(mappings: Seq<Mapping>, id: LowShardId) -> bool {
    exists|i: int| 0 <= i < mappings.len() && (#[trigger] mappings[i]).1.shard == id
}

/// Clears the blocks from `k` on that belong to a value and that no copy writes.
pub open spec fn clear_uncovered_from<M: BlockTarget>(
    target: &M,
    s: BuilderModel,
    outputs: Seq<LowShardId>,
    mappings: Seq<Mapping>,
    provenance: WorkProvenance,
    k: int,
) -> BlockStep
    decreases outputs.len() - k,
{
    if k >= outputs.len() {
        Ok(s)
    } else {
        match block_of(s.shards, outputs[k]) {
            Err(e) => Err(e),
            Ok(block) => if is_written(mappings, outputs[k]) || !(block.definition is Value) {
                clear_uncovered_from(target, s, outputs, mappings, provenance, k + 1)
            } else {
                match target.spec_storage_bytes(block.tensor_type.format, block.extents) {
                    Err(e) => Err(ExpansionError::Storage(e)),
                    Ok(bytes) => match append_zero_range(
                        s,
                        outputs[k],
                        ByteSpan { offset: 0, bytes },
                        false,
                        provenance,
                    ) {
                        Err(e) => Err(e),
                        Ok(next) => clear_uncovered_from(
                            target,
                            next,
                            outputs,
                            mappings,
                            provenance,
                            k + 1,
                        ),
                    },
                }
            },
        }
    }
}

/// Collects a copy whose sources are settled.
pub open spec fn collect_copy<M: BlockTarget>(
    target: &M,
    s: BuilderModel,
    batch: BatchModel,
    request: RequestModel,
    inputs: Seq<ViewModel>,
    outputs: Seq<LowShardId>,
    shape: Seq<u32>,
    output_order: ElementOrder,
) -> BlockStepWith<BatchModel> {
    match copy_regions(target, s, request, inputs, outputs, shape, output_order) {
        Err(e) => Err(e),
        Ok((unpacked, (mappings, order))) => match clear_uncovered_from(
            target,
            unpacked,
            outputs,
            mappings,
            request.provenance,
            0,
        ) {
            Err(e) => Err(e),
            Ok(cleared) => match prepare_mapped_views(
                target,
                cleared,
                batch,
                mappings,
                order,
                order,
                request.packing,
                request.provenance,
            ) {
                Err(e) => Err(e),
                Ok(next) => Ok((next.graph, next.batch)),
            },
        },
    }
}

/// Sources of a copy: the value, or its unpacked elements where a row-major
/// result is copied by coordinates.
pub open spec fn copy_sources(
    s: BuilderModel,
    request: RequestModel,
    inputs: Seq<ViewModel>,
    output_order: ElementOrder,
) -> BlockStepWith<Seq<ViewModel>> {
    if request.policy == CopyPolicy::StageLogicalThenTransform && output_order
        == ElementOrder::RowMajor {
        match unpack_value(s, request.inputs[0], request.provenance) {
            Err(e) => Err(e),
            Ok((next, Some(unpacked))) => Ok((next, unpacked)),
            Ok((next, None)) => Ok((next, inputs)),
        }
    } else {
        Ok((s, inputs))
    }
}

/// Collects one copy.
pub open spec fn prepare_copy_tensor<M: BlockTarget>(
    target: &M,
    s: BuilderModel,
    batch: BatchModel,
    request: RequestModel,
) -> BlockStepWith<BatchModel> {
    if request.inputs.len() != 1 || request.results.len() != 1 {
        Err(ExpansionError::ResultArity)
    } else {
        match (value_views(s, request.inputs[0]), allocation_shards(s, request.results[0])) {
            (Err(e), _) => Err(e),
            (_, Err(e)) => Err(e),
            (Ok(inputs), Ok(outputs)) => if request.inputs[0].0 >= s.types.len() {
                Err(ExpansionError::UnknownValue(request.inputs[0]))
            } else if outputs.len() == 0 {
                Err(ExpansionError::InvalidOperatorPlan)
            } else {
                match block_of(s.shards, outputs[0]) {
                    Err(e) => Err(e),
                    Ok(first) => {
                        let order = first.tensor_type.format.layout.order;
                        if request.policy == CopyPolicy::LocalKernel {
                            if !is_identity(request) || request.packing
                                != PackingPolicy::Automatic {
                                Err(ExpansionError::InvalidCopyPlan)
                            } else {
                                match local_rearrangement(s, request.provenance, inputs, outputs) {
                                    Err(e) => Err(e),
                                    Ok(next) => Ok((next, batch)),
                                }
                            }
                        } else {
                            match copy_sources(s, request, inputs, order) {
                                Err(e) => Err(e),
                                Ok((next, sources)) => collect_copy(
                                    target,
                                    next,
                                    batch,
                                    request,
                                    sources,
                                    outputs,
                                    s.types[request.inputs[0].0 as int].shape,
                                    order,
                                ),
                            }
                        }
                    },
                }
            },
        }
    }
}

// ---------------------------------------------------------------- several copies

/// The copy goes through panels on idle tiles.
pub open spec fn is_relayed(request: RequestModel) -> bool {
    request.policy == CopyPolicy::GatherThenMulticast
}

/// The end of the run of copies from `start` on that are all relayed, or none.
pub open spec fn run_end(requests: Seq<RequestModel>, start: int, end: int) -> int
    decreases requests.len() - end,
{
    if start < end < requests.len() && is_relayed(requests[end]) == is_relayed(requests[end - 1]) {
        run_end(requests, start, end + 1)
    } else {
        end
    }
}

/// Collects the copies from `i` up to `end`.
pub open spec fn collect_copies_from<M: BlockTarget>(
    target: &M,
    s: BuilderModel,
    batch: BatchModel,
    requests: Seq<RequestModel>,
    i: int,
    end: int,
) -> BlockStepWith<BatchModel>
    decreases end - i,
{
    if i >= end {
        Ok((s, batch))
    } else {
        match prepare_copy_tensor(target, s, batch, requests[i]) {
            Err(e) => Err(e),
            Ok((next, batch)) => collect_copies_from(target, next, batch, requests, i + 1, end),
        }
    }
}

/// All copies of a run serve one operation.
pub open spec fn share_operation(requests: Seq<RequestModel>, start: int, end: int) -> bool {
    forall|k: int|
        start <= k < end ==> (#[trigger] requests[k]).provenance.operation
            == requests[start].provenance.operation
}

/// What a run of copies is for: what they have in common.
pub open spec fn run_provenance(requests: Seq<RequestModel>, start: int, end: int) -> WorkProvenance {
    let first = requests[start].provenance;
    WorkProvenance {
        operation: if share_operation(requests, start, end) {
            first.operation
        } else {
            None
        },
        value: if end - start > 1 {
            None
        } else {
            first.value
        },
        reason: first.reason,
    }
}

/// Lowers the copies from `start` on, run by run.
pub open spec fn lower_copies_from<M: BlockTarget>(
    target: &M,
    s: BuilderModel,
    requests: Seq<RequestModel>,
    start: int,
) -> BlockStep
    decreases requests.len() - start,
{
    let end = run_end(requests, start, start + 1);
    if start >= requests.len() || end <= start || end > requests.len() {
        Ok(s)
    } else {
        match collect_copies_from(target, s, empty_batch(), requests, start, end) {
            Err(e) => Err(e),
            Ok((collected, batch)) => match append_materialization(
                target,
                collected,
                batch,
                run_provenance(requests, start, end),
                is_relayed(requests[start]),
            ) {
                Err(e) => Err(e),
                Ok(next) => lower_copies_from(target, next, requests, end),
            },
        }
    }
}

/// Lowers copies that need not wait for each other.
pub open spec fn lower_copies<M: BlockTarget>(
    target: &M,
    s: BuilderModel,
    requests: Seq<RequestModel>,
) -> BlockStep {
    lower_copies_from(target, s, requests, 0)
}

// ---------------------------------------------------------------- carrying out

fn keeps_coordinates(request: &CopyRequest) -> (r: bool)
    ensures
        r == is_identity(request@),
{
    if request.view.is_some() {
        return false;
    }
    let mut i: usize = 0;
    while i < request.offsets.len()
        invariant
            i <= request.offsets@.len(),
            forall|k: int| 0 <= k < i ==> #[trigger] request.offsets@[k] == 0,
        decreases request.offsets@.len() - i,
    {
        if request.offsets[i] != 0 {
            assert(request@.offsets[i as int] != 0);
            return false;
        }
        i += 1;
    }
    true
}

fn is_corresponding(source: &LowShard, view: &ShardView, block: &LowShard) -> (r: bool)
    ensures
        r == corresponds(source@, view@, block@),
{
    if source.tile != block.tile || view.extents.len() != block.extents.len() {
        return false;
    }
    let mut i: usize = 0;
    while i < view.extents.len()
        invariant
            i <= view.extents@.len(),
            view.extents@.len() == block.extents@.len(),
            forall|k: int|
                0 <= k < i ==> (#[trigger] view.extents@[k]).start == block.extents@[k].start
                    && view.extents@[k].logical_end == block.extents@[k].logical_end,
        decreases view.extents@.len() - i,
    {
        if view.extents[i].start != block.extents[i].start || view.extents[i].logical_end
            != block.extents[i].logical_end {
            assert(!(view@.extents[i as int].start == block@.extents[i as int].start
                && view@.extents[i as int].logical_end == block@.extents[i as int].logical_end));
            return false;
        }
        i += 1;
    }
    true
}

fn is_unpackable(block: &LowShard, view: &ShardView) -> (r: bool)
    ensures
        r == can_unpack_view(block@, view@),
{
    let rank = view.extents.len();
    if rank < 2 || block.tensor_type.format.precision != Precision::F16 {
        return false;
    }
    match block.tensor_type.format.layout.order {
        ElementOrder::Amp(AmpOrder::Output) => view.extents[rank - 1].physical_end
            % AMP_COLUMN_MICRO == view.extents[rank - 1].start % AMP_COLUMN_MICRO,
        ElementOrder::Amp(AmpOrder::TransposedLeft) => view.extents[rank - 2].physical_end
            % AMP_COLUMN_MICRO == view.extents[rank - 2].start % AMP_COLUMN_MICRO,
        ElementOrder::BlockMajor(_) => true,
        _ => false,
    }
}

fn must_unpack(order: ElementOrder) -> (r: bool)
    ensures
        r == needs_unpacking(order),
{
    match order {
        ElementOrder::Amp(AmpOrder::Output) => true,
        ElementOrder::Amp(AmpOrder::TransposedLeft) => true,
        ElementOrder::BlockMajor(_) => true,
        _ => false,
    }
}

fn writes(mappings: &Vec<ViewMapping>, id: LowShardId) -> (r: bool)
    ensures
        r == is_written(deep(mappings@), id),
{
    broadcast use group_deep;

    let ghost model = deep(mappings@);
    let mut i: usize = 0;
    while i < mappings.len()
        invariant
            i <= mappings@.len(),
            forall|k: int| 0 <= k < i ==> (#[trigger] model[k]).1.shard != id,
        decreases mappings@.len() - i,
    {
        assert(model[i as int] == mappings@[i as int]@);
        if mappings[i].1.shard == id {
            return true;
        }
        i += 1;
    }
    false
}

/// The end of a run of copies, and whether they serve one operation.
fn find_run(requests: &Vec<CopyRequest>, start: usize) -> (r: (usize, bool))
    requires
        start < requests@.len(),
    ensures
        start < r.0 <= requests@.len(),
        r.0 == run_end(deep(requests@), start as int, start + 1),
        r.1 == share_operation(deep(requests@), start as int, r.0 as int),
{
    broadcast use group_deep;

    let ghost model = deep(requests@);
    assert(model[start as int] == requests@[start as int]@);
    let relayed = requests[start].policy == CopyPolicy::GatherThenMulticast;
    let count: usize = requests.len();
    assert(start < count);
    let mut end: usize = start + 1;
    let mut same_operation = true;
    while end < count
        invariant
            start < end <= requests@.len(),
            relayed == is_relayed(model[end - 1]),
            run_end(model, start as int, start + 1) == run_end(model, start as int, end as int),
            same_operation == share_operation(model, start as int, end as int),
        decreases requests@.len() - end,
    {
        assert(model[end as int] == requests@[end as int]@);
        if (requests[end].policy == CopyPolicy::GatherThenMulticast) != relayed {
            return (end, same_operation);
        }
        let matching = same_option_id(
            requests[end].provenance.operation,
            requests[start].provenance.operation,
        );
        proof {
            if same_operation && matching {
                assert forall|k: int| start <= k < end + 1 implies (
                #[trigger] model[k]).provenance.operation
                    == model[start as int].provenance.operation by {}
            }
            if same_operation && !matching {
                assert(model[end as int].provenance.operation
                    != model[start as int].provenance.operation);
            }
        }
        same_operation = same_operation && matching;
        end += 1;
    }
    (end, same_operation)
}

fn same_option_id(a: Option<OperationId>, b: Option<OperationId>) -> (r: bool)
    ensures
        r == (a == b),
{
    match (a, b) {
        (Some(a), Some(b)) => a == b,
        (None, None) => true,
        _ => false,
    }
}

impl TileGraphBuilder {
    fn append_rearrangement(
        &mut self,
        tile: u16,
        from: Layout,
        to: Layout,
        source: ShardView,
        destination: ShardView,
        provenance: WorkProvenance,
    ) -> (r: ExpansionResult<()>)
        ensures
            built(
                r,
                final(self)@,
                append_rearrangement(
                    old(self)@,
                    tile,
                    from@,
                    to@,
                    source@,
                    destination@,
                    provenance,
                ),
            ),
    {
        let kernel: TileKernelSpec = KernelSpec::Rearrange { from, to };
        let run = new_plain_run(
            provenance,
            BlockKernel::Tile(kernel),
            one_view(source),
            one_view(destination),
        );
        self.append_kernel(tile, run)
    }

    /// Rearranges every block where it is.
    pub fn local_rearrangement(
        &mut self,
        provenance: WorkProvenance,
        inputs: &Vec<ShardView>,
        outputs: &Vec<LowShardId>,
    ) -> (r: ExpansionResult<()>)
        ensures
            built(
                r,
                final(self)@,
                local_rearrangement(old(self)@, provenance, deep(inputs@), outputs@),
            ),
    {
        broadcast use group_deep;

        if inputs.len() != outputs.len() {
            return Err(ExpansionError::InvalidCopyPlan);
        }
        let ghost start = self@;
        let ghost model = deep(inputs@);
        let mut k: usize = 0;
        while k < inputs.len()
            invariant
                k <= inputs@.len(),
                inputs@.len() == outputs@.len(),
                rearrange_from(start, provenance, model, outputs@, 0) == rearrange_from(
                    self@,
                    provenance,
                    model,
                    outputs@,
                    k as int,
                ),
            decreases inputs@.len() - k,
        {
            assert(model[k as int] == inputs@[k as int]@);
            let source = self.block(inputs[k].shard)?;
            let block = self.block(outputs[k])?;
            if !is_corresponding(source, &inputs[k], block) {
                return Err(ExpansionError::InvalidCopyPlan);
            }
            let from = source.tensor_type.format.layout.duplicate();
            let to = block.tensor_type.format.layout.duplicate();
            let tile: u16 = block.tile;
            let destination = self.full_view(outputs[k])?;
            self.append_rearrangement(
                tile,
                from,
                to,
                inputs[k].duplicate(),
                destination,
                provenance,
            )?;
            k += 1;
        }
        Ok(())
    }

    /// Unpacks a value into row-major scratch storage, where a kernel can.
    pub fn unpack_amp_to_row_major(&mut self, value: MidValueId, provenance: WorkProvenance) -> (r:
        ExpansionResult<Option<Vec<ShardView>>>)
        ensures
            match r {
                Ok(Some(views)) => unpack_value(old(self)@, value, provenance) == Ok::<
                    (BuilderModel, Option<Seq<ViewModel>>),
                    ExpansionError,
                >((final(self)@, Some(deep(views@)))),
                Ok(None) => unpack_value(old(self)@, value, provenance) == Ok::<
                    (BuilderModel, Option<Seq<ViewModel>>),
                    ExpansionError,
                >((final(self)@, None)),
                Err(e) => unpack_value(old(self)@, value, provenance) == Err::<
                    (BuilderModel, Option<Seq<ViewModel>>),
                    ExpansionError,
                >(e),
            },
    {
        broadcast use group_deep;

        let ghost start = self@;
        let views = duplicate_all(self.value_views(value)?);
        let ghost model = deep(views@);
        let mut i: usize = 0;
        while i < views.len()
            invariant
                i <= views@.len(),
                can_unpack_views_from(self@.shards, model, 0) == can_unpack_views_from(
                    self@.shards,
                    model,
                    i as int,
                ),
            decreases views@.len() - i,
        {
            assert(model[i as int] == views@[i as int]@);
            let block = self.block(views[i].shard)?;
            if !is_unpackable(block, &views[i]) {
                return Ok(None);
            }
            i += 1;
        }
        if value.0 as usize >= self.types.len() {
            return Err(ExpansionError::UnknownValue(value));
        }
        let tensor_type = self.types[value.0 as usize].duplicate();
        let mut unpacked: Vec<ShardView> = Vec::new();
        assert(deep(unpacked@) =~= Seq::<ViewModel>::empty());
        let mut i: usize = 0;
        while i < views.len()
            invariant
                i <= views@.len(),
                unpack_views_from(start, tensor_type@, model, provenance, 0, Seq::empty())
                    == unpack_views_from(
                    self@,
                    tensor_type@,
                    model,
                    provenance,
                    i as int,
                    deep(unpacked@),
                ),
            decreases views@.len() - i,
        {
            assert(model[i as int] == views@[i as int]@);
            let tile: u16 = self.block(views[i].shard)?.tile;
            let staging = LowShard {
                id: LowShardId(0),
                tile,
                tensor_type: in_row_major(&tensor_type),
                extents: copy_all(views[i].extents.as_slice()),
                definition: ShardDefinition::Staging,
            };
            assert(staging@ == unpacked_block(tensor_type@, tile, model[i as int]));
            let id = self.push_shard(staging)?;
            let from = tensor_type.format.layout.duplicate();
            let to = Layout::local(ElementOrder::RowMajor, MemoryClass::Ipu21Standard);
            let view = ShardView { shard: id, extents: copy_all(views[i].extents.as_slice()) };
            self.append_rearrangement(
                tile,
                from,
                to,
                views[i].duplicate(),
                view.duplicate(),
                provenance,
            )?;
            unpacked.push(view);
            i += 1;
        }
        Ok(Some(unpacked))
    }

    /// The regions of a copy through a view.
    fn viewed_regions<M: BlockTarget>(
        &mut self,
        target: &M,
        request: &CopyRequest,
        view: AxisFactorView,
        inputs: &Vec<ShardView>,
        outputs: &Vec<LowShardId>,
        shape: &Vec<u32>,
        source_order: ElementOrder,
    ) -> (r: ExpansionResult<(Vec<ViewMapping>, CopyOrder)>)
        requires
            request.inputs@.len() == 1,
        ensures
            regions_found(
                r,
                final(self)@,
                viewed_regions(
                    target,
                    old(self)@,
                    request@,
                    view,
                    deep(inputs@),
                    outputs@,
                    shape@,
                    source_order,
                ),
            ),
    {
        let mappings = self.window_view_mappings(
            inputs,
            shape.as_slice(),
            outputs,
            view,
            request.offsets.as_slice(),
        )?;
        if request.packing != PackingPolicy::Staged {
            match self.micro_panel_mappings(target, &mappings)? {
                Some(physical) => {
                    return Ok(physical);
                },
                None => {},
            }
        }
        if request.policy == CopyPolicy::DirectRetile || request.policy
            == CopyPolicy::GatherThenMulticast {
            return Err(ExpansionError::InvalidCopyPlan);
        }
        if must_unpack(source_order) {
            let provenance = WorkProvenance {
                operation: request.provenance.operation,
                value: request.provenance.value,
                reason: WorkReason::LayoutRearrangement,
            };
            match self.unpack_amp_to_row_major(request.inputs[0], provenance)? {
                Some(unpacked) => {
                    let mappings = self.window_view_mappings(
                        &unpacked,
                        shape.as_slice(),
                        outputs,
                        view,
                        request.offsets.as_slice(),
                    )?;
                    Ok((mappings, CopyOrder::Semantic))
                },
                None => Err(ExpansionError::InvalidOperatorPlan),
            }
        } else {
            Ok((mappings, CopyOrder::Semantic))
        }
    }

    /// The regions of a copy.
    fn copy_regions<M: BlockTarget>(
        &mut self,
        target: &M,
        request: &CopyRequest,
        inputs: &Vec<ShardView>,
        outputs: &Vec<LowShardId>,
        shape: &Vec<u32>,
        output_order: ElementOrder,
    ) -> (r: ExpansionResult<(Vec<ViewMapping>, CopyOrder)>)
        requires
            request.inputs@.len() == 1,
        ensures
            regions_found(
                r,
                final(self)@,
                copy_regions(
                    target,
                    old(self)@,
                    request@,
                    deep(inputs@),
                    outputs@,
                    shape@,
                    output_order,
                ),
            ),
    {
        broadcast use group_deep;

        if inputs.len() == 0 {
            return Err(ExpansionError::InvalidOperatorPlan);
        }
        let source_order: ElementOrder = self.block(inputs[0].shard)?.tensor_type.format.layout.order;
        match request.view {
            Some(view) => self.viewed_regions(
                target,
                request,
                view,
                inputs,
                outputs,
                shape,
                source_order,
            ),
            None => {
                let mappings = self.offset_copy_mappings(
                    inputs,
                    outputs,
                    request.offsets.as_slice(),
                )?;
                let physical = request.policy == CopyPolicy::DirectRetile || request.policy
                    == CopyPolicy::GatherThenMulticast || (request.policy == CopyPolicy::Automatic
                    && source_order == output_order);
                let order = if physical {
                    CopyOrder::Physical
                } else {
                    CopyOrder::Semantic
                };
                Ok((mappings, order))
            },
        }
    }

    /// Clears the blocks of a value that no copy writes.
    fn clear_uncovered<M: BlockTarget>(
        &mut self,
        target: &M,
        outputs: &Vec<LowShardId>,
        mappings: &Vec<ViewMapping>,
        provenance: WorkProvenance,
    ) -> (r: ExpansionResult<()>)
        ensures
            built(
                r,
                final(self)@,
                clear_uncovered_from(
                    target,
                    old(self)@,
                    outputs@,
                    deep(mappings@),
                    provenance,
                    0,
                ),
            ),
    {
        let ghost start = self@;
        let mut k: usize = 0;
        while k < outputs.len()
            invariant
                k <= outputs@.len(),
                clear_uncovered_from(target, start, outputs@, deep(mappings@), provenance, 0)
                    == clear_uncovered_from(
                    target,
                    self@,
                    outputs@,
                    deep(mappings@),
                    provenance,
                    k as int,
                ),
            decreases outputs@.len() - k,
        {
            let block = self.block(outputs[k])?;
            let owned = match block.definition {
                ShardDefinition::Value(_) => true,
                _ => false,
            };
            if !writes(mappings, outputs[k]) && owned {
                match target.storage_bytes(&block.tensor_type.format, block.extents.as_slice()) {
                    Ok(bytes) => {
                        self.append_zero_range(
                            outputs[k],
                            ByteSpan { offset: 0, bytes },
                            false,
                            provenance,
                        )?;
                    },
                    Err(e) => {
                        return Err(ExpansionError::Storage(e));
                    },
                }
            }
            k += 1;
        }
        Ok(())
    }

    /// Collects one copy.
    pub fn prepare_copy_tensor<M: BlockTarget>(
        &mut self,
        target: &M,
        request: &CopyRequest,
        batch: &mut MaterializationBatch,
    ) -> (r: ExpansionResult<()>)
        requires
            well_filed(old(batch)@),
        ensures
            well_filed(final(batch)@),
            match r {
                Ok(_) => prepare_copy_tensor(target, old(self)@, old(batch)@, request@) == Ok::<
                    (BuilderModel, BatchModel),
                    ExpansionError,
                >((final(self)@, final(batch)@)),
                Err(e) => prepare_copy_tensor(target, old(self)@, old(batch)@, request@) == Err::<
                    (BuilderModel, BatchModel),
                    ExpansionError,
                >(e),
            },
    {
        broadcast use group_deep;

        if request.inputs.len() != 1 || request.results.len() != 1 {
            return Err(ExpansionError::ResultArity);
        }
        let input = request.inputs[0];
        let inputs = duplicate_all(self.value_views(input)?);
        let outputs = self.allocation_shards(request.results[0])?;
        if input.0 as usize >= self.types.len() {
            return Err(ExpansionError::UnknownValue(input));
        }
        if outputs.len() == 0 {
            return Err(ExpansionError::InvalidOperatorPlan);
        }
        let shape = copy_all(self.types[input.0 as usize].shape.0.as_slice());
        assert(shape@ == self@.types[input.0 as int].shape);
        let output_order: ElementOrder = self.block(outputs[0])?.tensor_type.format.layout.order;
        if request.policy == CopyPolicy::LocalKernel {
            if !keeps_coordinates(request) || request.packing != PackingPolicy::Automatic {
                return Err(ExpansionError::InvalidCopyPlan);
            }
            return self.local_rearrangement(request.provenance, &inputs, &outputs);
        }
        let row_major = match output_order {
            ElementOrder::RowMajor => true,
            _ => false,
        };
        let sources = if request.policy == CopyPolicy::StageLogicalThenTransform && row_major {
            match self.unpack_amp_to_row_major(input, request.provenance)? {
                Some(unpacked) => unpacked,
                None => inputs,
            }
        } else {
            inputs
        };
        let (mappings, order) = self.copy_regions(
            target,
            request,
            &sources,
            &outputs,
            &shape,
            output_order,
        )?;
        self.clear_uncovered(target, &outputs, &mappings, request.provenance)?;
        self.prepare_mapped_views(
            target,
            &mappings,
            order,
            order,
            request.packing,
            request.provenance,
            batch,
        )
    }

    /// Collects a run of copies.
    fn collect_run<M: BlockTarget>(
        &mut self,
        target: &M,
        requests: &Vec<CopyRequest>,
        start: usize,
        end: usize,
        batch: &mut MaterializationBatch,
    ) -> (r: ExpansionResult<()>)
        requires
            well_filed(old(batch)@),
            start <= end <= requests@.len(),
        ensures
            well_filed(final(batch)@),
            match r {
                Ok(_) => collect_copies_from(
                    target,
                    old(self)@,
                    old(batch)@,
                    deep(requests@),
                    start as int,
                    end as int,
                ) == Ok::<(BuilderModel, BatchModel), ExpansionError>(
                    (final(self)@, final(batch)@),
                ),
                Err(e) => collect_copies_from(
                    target,
                    old(self)@,
                    old(batch)@,
                    deep(requests@),
                    start as int,
                    end as int,
                ) == Err::<(BuilderModel, BatchModel), ExpansionError>(e),
            },
    {
        broadcast use group_deep;

        let ghost model = deep(requests@);
        let ghost before = self@;
        let ghost given = batch@;
        let mut i: usize = start;
        while i < end
            invariant
                start <= i <= end <= requests@.len(),
                well_filed(batch@),
                collect_copies_from(target, before, given, model, start as int, end as int)
                    == collect_copies_from(target, self@, batch@, model, i as int, end as int),
            decreases end - i,
        {
            assert(model[i as int] == requests@[i as int]@);
            self.prepare_copy_tensor(target, &requests[i], batch)?;
            i += 1;
        }
        Ok(())
    }

    /// Lowers copies that need not wait for each other.
    pub fn lower_copies<M: BlockTarget>(&mut self, target: &M, requests: &Vec<CopyRequest>) -> (r:
        ExpansionResult<()>)
        ensures
            built(r, final(self)@, lower_copies(target, old(self)@, deep(requests@))),
    {
        broadcast use group_deep;

        let ghost first = self@;
        let ghost model = deep(requests@);
        let mut start: usize = 0;
        while start < requests.len()
            invariant
                start <= requests@.len(),
                lower_copies(target, first, model) == lower_copies_from(
                    target,
                    self@,
                    model,
                    start as int,
                ),
            decreases requests@.len() - start,
        {
            assert(model[start as int] == requests@[start as int]@);
            let relayed = requests[start].policy == CopyPolicy::GatherThenMulticast;
            let (end, same_operation) = find_run(requests, start);
            let mut batch = MaterializationBatch::new();
            self.collect_run(target, requests, start, end, &mut batch)?;
            let shared = requests[start].provenance;
            let provenance = WorkProvenance {
                operation: if same_operation {
                    shared.operation
                } else {
                    None
                },
                value: if end - start > 1 {
                    None
                } else {
                    shared.value
                },
                reason: shared.reason,
            };
            assert(provenance == run_provenance(model, start as int, end as int));
            self.append_materialization(target, batch, provenance, relayed)?;
            start = end;
        }
        Ok(())
    }
}

/// `r` has the regions that `step` promises.
pub open spec fn regions_found(
    r: ExpansionResult<(Vec<ViewMapping>, CopyOrder)>,
    after: BuilderModel,
    step: BlockStepWith<(Seq<Mapping>, CopyOrder)>,
) -> bool {
    match r {
        Ok((mappings, order)) => step == Ok::<
            (BuilderModel, (Seq<Mapping>, CopyOrder)),
            ExpansionError,
        >((after, (deep(mappings@), order))),
        Err(e) => step == Err::<(BuilderModel, (Seq<Mapping>, CopyOrder)), ExpansionError>(e),
    }
}

} // verus!
