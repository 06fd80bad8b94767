//! Physical realization of selected conversions, and of corresponding views of
//! two values.

use crate::buffers::{append_fill_zero, append_attention_rearrange};
use crate::copies::{spans_of, with_view_copies};
use crate::fallback::lower_unplanned_conversion;
use crate::fragments::{all_word_aligned, are_word_aligned, benefits_from_word_exchange};
use crate::kernels::{append_kernel, append_kernels_from};
use crate::lookup::{filed_parts, local_shard, resides, value_shards};
use crate::low::{
    one_operand, ExchangeOrder, KernelRequirements, KernelRun, LocalCopy, LowLoweringError,
    LowLoweringResult, LowShard, LowShardId, MetadataModel, RequirementsModel, RunModel,
    ShardDefinition, ShardModel, ShardView, TileKernel, ViewModel, WorkProvenance, WorkReason,
};
use crate::mid::{
    plain_requirement, ConversionPlan, ConversionStrategy, KernelSpec, MemoryOperand,
    MemoryRelation, MidOperation, MidOperationKind, MidValueId, OperandRequirement,
};
use crate::model::{Model, copy_all, deep, group_deep};
use crate::order::{groups_insert, key_of_id, lemma_insert_nonempty, GroupModel, Groups};
use crate::phase::{
    add_transfer, add_transfer_to, append_ordered_phase, transfers_nonempty,
};
use crate::state::{
    append_copies_from, did, found_all, full_view, has_padding, push_shard, shard_of, unpadded,
    without_padding, LoweringState, StateModel, Step, StepWith, Transfers, TransfersModel,
};
use crate::target::Target;
use crate::tensor::{
    replicated_layout, AmpOrder, BlockMajorOrder, ElementOrder, FormatModel, Layout, MemoryClass,
    Precision, ShardExtent, TensorFormat, TensorType, TypeModel, AMP_COLUMN_MICRO,
};
use vstd::prelude::*;

verus! {

// ---------------------------------------------------------------- provenance

/// Where the work of an operation comes from.
pub open spec fn provenance_of(operation: MidOperation) -> WorkProvenance {
    WorkProvenance {
        operation: operation.source,
        value: if operation.results@.len() > 0 {
            Some(operation.results@[0])
        } else {
            None
        },
        reason: match operation.kind {
            MidOperationKind::CastPrecision => WorkReason::PrecisionCast,
            MidOperationKind::Rearrange => WorkReason::LayoutRearrangement,
            MidOperationKind::Operator(_) => WorkReason::OperatorKernel,
            MidOperationKind::Repeat(_) => WorkReason::Repeat,
        },
    }
}

pub fn operation_provenance(operation: &MidOperation) -> (r: WorkProvenance)
    ensures
        r == provenance_of(*operation),
{
    WorkProvenance {
        operation: operation.source,
        value: if operation.results.len() > 0 {
            Some(operation.results[0])
        } else {
            None
        },
        reason: match &operation.kind {
            MidOperationKind::CastPrecision => WorkReason::PrecisionCast,
            MidOperationKind::Rearrange => WorkReason::LayoutRearrangement,
            MidOperationKind::Operator(_) => WorkReason::OperatorKernel,
            MidOperationKind::Repeat(_) => WorkReason::Repeat,
        },
    }
}

// ---------------------------------------------------------------- unpacking

/// The padded range is a number of whole panels.
pub open spec fn whole_panels(extent: ShardExtent) -> bool {
    extent.physical_end >= extent.start && (extent.physical_end - extent.start) % (
    AMP_COLUMN_MICRO as int) == 0
}

/// A kernel can unpack the shard into row-major order.
pub open spec fn can_unpack(shard: ShardModel) -> bool {
    &&& shard.extents.len() == 3
    &&& shard.tensor_type.format.precision == Precision::F16
    &&& match shard.tensor_type.format.layout.order {
        ElementOrder::Amp(AmpOrder::Output) => whole_panels(shard.extents[2]),
        ElementOrder::Amp(AmpOrder::TransposedLeft) => whole_panels(shard.extents[1]),
        _ => false,
    }
}

/// Row-major staging for the values of a shard, with its padding.
pub open spec fn row_major_staging(shard: ShardModel) -> ShardModel {
    ShardModel {
        id: LowShardId(0),
        tile: shard.tile,
        tensor_type: TypeModel {
            shape: shard.tensor_type.shape,
            format: FormatModel {
                precision: shard.tensor_type.format.precision,
                layout: replicated_layout(ElementOrder::RowMajor, MemoryClass::Ipu21Standard),
            },
        },
        extents: shard.extents,
        definition: ShardDefinition::Staging,
    }
}

/// Whether all listed shards from `k` on can be unpacked.
pub open spec fn can_unpack_from(shards: Seq<ShardModel>, ids: Seq<LowShardId>, k: int) -> Result<
    bool,
    LowLoweringError,
>
    decreases ids.len() - k,
{
    if k >= ids.len() {
        Ok(true)
    } else {
        match shard_of(shards, ids[k]) {
            Err(e) => Err(e),
            Ok(shard) => if can_unpack(shard) {
                can_unpack_from(shards, ids, k + 1)
            } else {
                Ok(false)
            },
        }
    }
}

/// Unpacks the listed shards from `k` on, and lists the staging after `done`.
pub open spec fn unpack_from(
    s: StateModel,
    ids: Seq<LowShardId>,
    provenance: WorkProvenance,
    k: int,
    done: Seq<LowShardId>,
) -> StepWith<Seq<LowShardId>>
    decreases ids.len() - k,
{
    if k >= ids.len() {
        Ok((s, done))
    } else {
        match shard_of(s.shards, ids[k]) {
            Err(e) => Err(e),
            Ok(shard) => match push_shard(s, row_major_staging(shard)) {
                Err(e) => Err(e),
                Ok((pushed, staging)) => match append_attention_rearrange(
                    pushed,
                    shard.tile,
                    ids[k],
                    staging,
                    4,
                    provenance,
                ) {
                    Err(e) => Err(e),
                    Ok(next) => unpack_from(next, ids, provenance, k + 1, done.push(staging)),
                },
            },
        }
    }
}

/// Unpacks the shards of a value into row-major staging, if all can be.
pub open spec fn unpack_amp(s: StateModel, value: MidValueId, provenance: WorkProvenance) -> StepWith<
    Option<Seq<LowShardId>>,
> {
    match value_shards(s, value) {
        Err(e) => Err(e),
        Ok(ids) => match can_unpack_from(s.shards, ids, 0) {
            Err(e) => Err(e),
            Ok(false) => Ok((s, None)),
            Ok(true) => match unpack_from(s, ids, provenance, 0, Seq::empty()) {
                Err(e) => Err(e),
                Ok((next, staging)) => Ok((next, Some(staging))),
            },
        },
    }
}

fn is_whole_panels(extent: ShardExtent) -> (r: bool)
    ensures
        r == whole_panels(extent),
{
    extent.physical_end >= extent.start && (extent.physical_end - extent.start) % AMP_COLUMN_MICRO
        == 0
}

fn is_unpackable(shard: &LowShard) -> (r: bool)
    ensures
        r == can_unpack(shard@),
{
    shard.extents.len() == 3 && shard.tensor_type.format.precision == Precision::F16
        && match shard.tensor_type.format.layout.order {
        ElementOrder::Amp(AmpOrder::Output) => is_whole_panels(shard.extents[2]),
        ElementOrder::Amp(AmpOrder::TransposedLeft) => is_whole_panels(shard.extents[1]),
        _ => false,
    }
}

// ---------------------------------------------------------------- mapped views

/// Movement and packing that populates destinations at one exchange boundary.
#[derive(Debug)]
pub struct Batch {
    pub transfers: Transfers,
    pub before: Vec<(u16, LocalCopy)>,
    pub after: Vec<(u16, LocalCopy)>,
    pub kernels: Vec<(u16, KernelRun)>,
}

/// Abstract value of a [`Batch`].
pub struct BatchModel {
    pub transfers: TransfersModel,
    pub before: Seq<(u16, LocalCopy)>,
    pub after: Seq<(u16, LocalCopy)>,
    pub kernels: Seq<(u16, RunModel)>,
}

impl View for Batch {
    type V = BatchModel;

    open spec fn view(&self) -> BatchModel {
        BatchModel {
            transfers: self.transfers@,
            before: self.before@,
            after: self.after@,
            kernels: deep(self.kernels@),
        }
    }
}

/// A batch without work.
pub open spec fn empty_batch() -> BatchModel {
    BatchModel {
        transfers: Seq::empty(),
        before: Seq::empty(),
        after: Seq::empty(),
        kernels: Seq::empty(),
    }
}

/// The first `count` mappings by destination shard.
pub open spec fn filed_mappings(mappings: Seq<(ViewModel, ViewModel)>, count: int) -> Seq<
    GroupModel<(ViewModel, ViewModel)>,
>
    decreases count,
{
    if count <= 0 {
        Seq::empty()
    } else {
        groups_insert(
            filed_mappings(mappings, count - 1),
            seq![mappings[count - 1].1.shard.0],
            mappings[count - 1],
        )
    }
}

/// Whether a destination from `k` on is not aligned to words, or `found`.
pub open spec fn unaligned_from<M: Target>(
    target: &M,
    shards: Seq<ShardModel>,
    mappings: Seq<(ViewModel, ViewModel)>,
    k: int,
    found: bool,
) -> Result<bool, LowLoweringError>
    decreases mappings.len() - k,
{
    if k >= mappings.len() {
        Ok(found)
    } else {
        match spans_of(target, shards, mappings[k].1, ExchangeOrder::Semantic) {
            Err(e) => Err(e),
            Ok(spans) => unaligned_from(
                target,
                shards,
                mappings,
                k + 1,
                found || !all_word_aligned(spans),
            ),
        }
    }
}

/// Whether a source from `k` on has its elements in another order.
pub open spec fn order_differs_from(
    shards: Seq<ShardModel>,
    mappings: Seq<(ViewModel, ViewModel)>,
    order: ElementOrder,
    k: int,
) -> Result<bool, LowLoweringError>
    decreases mappings.len() - k,
{
    if k >= mappings.len() {
        Ok(false)
    } else {
        match shard_of(shards, mappings[k].0.shard) {
            Err(e) => Err(e),
            Ok(shard) => if shard.tensor_type.format.layout.order != order {
                Ok(true)
            } else {
                order_differs_from(shards, mappings, order, k + 1)
            },
        }
    }
}

/// A view without padding, of `shard`.
pub open spec fn trimmed(view: ViewModel, shard: LowShardId) -> ViewModel {
    ViewModel { shard, extents: unpadded(view.extents) }
}

/// The order in which copies follow elements.
pub open spec fn copy_order(logical: bool) -> ExchangeOrder {
    if logical {
        ExchangeOrder::Semantic
    } else {
        ExchangeOrder::Physical
    }
}

/// The batch with the movement of the mappings from `k` on, into `staging`
/// where there is one.
pub open spec fn move_from<M: Target>(
    target: &M,
    shards: Seq<ShardModel>,
    mappings: Seq<(ViewModel, ViewModel)>,
    staging: Option<LowShardId>,
    logical: bool,
    k: int,
    batch: BatchModel,
) -> Result<BatchModel, LowLoweringError>
    decreases mappings.len() - k,
{
    if k >= mappings.len() {
        Ok(batch)
    } else {
        let source = match staging {
            Some(_) => trimmed(mappings[k].0, mappings[k].0.shard),
            None => mappings[k].0,
        };
        let destination = match staging {
            Some(id) => trimmed(mappings[k].1, id),
            None => mappings[k].1,
        };
        match shard_of(shards, source.shard) {
            Err(e) => Err(e),
            Ok(from) => match shard_of(shards, destination.shard) {
                Err(e) => Err(e),
                Ok(to) => if from.tile == to.tile {
                    match with_view_copies(
                        target,
                        shards,
                        source,
                        destination,
                        to.tile,
                        copy_order(logical),
                        if staging is Some {
                            batch.before
                        } else {
                            batch.after
                        },
                    ) {
                        Err(e) => Err(e),
                        Ok(copies) => move_from(
                            target,
                            shards,
                            mappings,
                            staging,
                            logical,
                            k + 1,
                            if staging is Some {
                                BatchModel { before: copies, ..batch }
                            } else {
                                BatchModel { after: copies, ..batch }
                            },
                        ),
                    }
                } else {
                    move_from(
                        target,
                        shards,
                        mappings,
                        staging,
                        logical,
                        k + 1,
                        BatchModel {
                            transfers: add_transfer(batch.transfers, source, destination),
                            ..batch
                        },
                    )
                },
            },
        }
    }
}

/// Row-major staging for the useful values of a shard.
pub open spec fn conversion_staging(shard: ShardModel) -> ShardModel {
    ShardModel { extents: unpadded(shard.extents), ..row_major_staging(shard) }
}

/// A kernel can pack row-major values into the format.
pub open spec fn has_packing_kernel(format: FormatModel) -> bool {
    format.precision == Precision::F16 && match format.layout.order {
        ElementOrder::Amp(AmpOrder::Left) => true,
        ElementOrder::Amp(AmpOrder::TransposedRight) => true,
        ElementOrder::BlockMajor(BlockMajorOrder::Matrix { .. }) => true,
        _ => false,
    }
}

/// The run that packs staged values into their destination.
pub open spec fn packing_run(
    staging: LowShardId,
    from: ShardModel,
    destination: LowShardId,
    to: ShardModel,
    provenance: WorkProvenance,
) -> RunModel {
    RunModel {
        metadata: MetadataModel {
            provenance,
            kernel: KernelSpec::Rearrange {
                from: from.tensor_type.format.layout,
                to: to.tensor_type.format.layout,
            },
            requirements: RequirementsModel::Conversion {
                input: plain_requirement(from.tensor_type.format, 2),
                output: plain_requirement(to.tensor_type.format, 2),
                memory_relations: seq![seq![MemoryOperand::Input(0), MemoryOperand::Output]],
            },
        },
        inputs: seq![seq![ViewModel { shard: staging, extents: from.extents }]],
        output: ViewModel { shard: destination, extents: to.extents },
    }
}

/// The batch with what carries staged values over to their destination.
pub open spec fn unstage<M: Target>(
    target: &M,
    shards: Seq<ShardModel>,
    staging: LowShardId,
    destination: LowShardId,
    provenance: WorkProvenance,
    batch: BatchModel,
) -> Result<BatchModel, LowLoweringError> {
    match shard_of(shards, staging) {
        Err(e) => Err(e),
        Ok(from) => match shard_of(shards, destination) {
            Err(e) => Err(e),
            Ok(to) => if from.tensor_type.format.precision == Precision::F16
                && has_packing_kernel(
                FormatModel { precision: Precision::F16, ..to.tensor_type.format },
            ) {
                Ok(
                    BatchModel {
                        kernels: batch.kernels.push(
                            (to.tile, packing_run(staging, from, destination, to, provenance)),
                        ),
                        ..batch
                    },
                )
            } else {
                match with_view_copies(
                    target,
                    shards,
                    ViewModel { shard: staging, extents: from.extents },
                    ViewModel { shard: destination, extents: unpadded(to.extents) },
                    to.tile,
                    ExchangeOrder::Semantic,
                    batch.after,
                ) {
                    Err(e) => Err(e),
                    Ok(after) => Ok(BatchModel { after, ..batch }),
                }
            },
        },
    }
}

/// How one destination is populated.
pub enum Placement {
    /// Values go straight to the destination.
    Direct,
    /// Values go straight to the destination, whose padding is cleared first.
    Cleared,
    /// Values are staged in row-major order and then packed.
    Staged,
}

/// How the mappings into one destination populate it. Values that keep their
/// order, or that a word exchange carries over for less, need no staging.
pub open spec fn placement<M: Target>(
    target: &M,
    shards: Seq<ShardModel>,
    destination: LowShardId,
    mappings: Seq<(ViewModel, ViewModel)>,
    logical: bool,
) -> Result<Placement, LowLoweringError> {
    match shard_of(shards, destination) {
        Err(e) => Err(e),
        Ok(shard) => match unaligned_from(target, shards, mappings, 0, false) {
            Err(e) => Err(e),
            Ok(unaligned) => if !logical {
                Ok(Placement::Direct)
            } else {
                match order_differs_from(
                    shards,
                    mappings,
                    shard.tensor_type.format.layout.order,
                    0,
                ) {
                    Err(e) => Err(e),
                    Ok(differs) => if !differs && !unaligned {
                        Ok(Placement::Direct)
                    } else {
                        match benefits_from_word_exchange(target, shards, mappings, destination) {
                            Err(e) => Err(e),
                            Ok(true) => if has_padding(shard.extents) {
                                Ok(Placement::Cleared)
                            } else {
                                Ok(Placement::Direct)
                            },
                            Ok(false) => Ok(Placement::Staged),
                        }
                    },
                }
            },
        },
    }
}

/// Populates one destination from its mappings.
pub open spec fn populate<M: Target>(
    target: &M,
    s: StateModel,
    mappings: Seq<(ViewModel, ViewModel)>,
    logical: bool,
    provenance: WorkProvenance,
    batch: BatchModel,
) -> StepWith<BatchModel> {
    let destination = mappings[0].1.shard;
    match placement(target, s.shards, destination, mappings, logical) {
        Err(e) => Err(e),
        Ok(Placement::Direct) => match move_from(
            target,
            s.shards,
            mappings,
            None,
            logical,
            0,
            batch,
        ) {
            Err(e) => Err(e),
            Ok(more) => Ok((s, more)),
        },
        Ok(Placement::Cleared) => match append_fill_zero(s, destination, provenance) {
            Err(e) => Err(e),
            Ok(next) => match move_from(target, next.shards, mappings, None, logical, 0, batch) {
                Err(e) => Err(e),
                Ok(more) => Ok((next, more)),
            },
        },
        Ok(Placement::Staged) => match push_shard(
            s,
            conversion_staging(s.shards[destination.0 as int]),
        ) {
            Err(e) => Err(e),
            Ok((next, staging)) => match move_from(
                target,
                next.shards,
                mappings,
                Some(staging),
                logical,
                0,
                batch,
            ) {
                Err(e) => Err(e),
                Ok(more) => match unstage(
                    target,
                    next.shards,
                    staging,
                    destination,
                    provenance,
                    more,
                ) {
                    Err(e) => Err(e),
                    Ok(done) => Ok((next, done)),
                },
            },
        },
    }
}

/// Populates the destinations of the groups from `k` on.
pub open spec fn populate_from<M: Target>(
    target: &M,
    s: StateModel,
    groups: Seq<GroupModel<(ViewModel, ViewModel)>>,
    logical: bool,
    provenance: WorkProvenance,
    k: int,
    batch: BatchModel,
) -> StepWith<BatchModel>
    decreases groups.len() - k,
{
    if k >= groups.len() {
        Ok((s, batch))
    } else {
        match populate(target, s, groups[k].items, logical, provenance, batch) {
            Err(e) => Err(e),
            Ok((next, more)) => populate_from(
                target,
                next,
                groups,
                logical,
                provenance,
                k + 1,
                more,
            ),
        }
    }
}

/// Schedules a batch: staging copies, the exchange, copies to destinations, and
/// the kernels that pack them.
pub open spec fn append_batch(
    s: StateModel,
    batch: BatchModel,
    provenance: WorkProvenance,
    order: ExchangeOrder,
) -> Step {
    match append_copies_from(s, batch.before, 0) {
        Err(e) => Err(e),
        Ok(a) => match append_ordered_phase(a, batch.transfers, provenance, order) {
            Err(e) => Err(e),
            Ok(b) => match append_copies_from(b, batch.after, 0) {
                Err(e) => Err(e),
                Ok(c) => append_kernels_from(c, batch.kernels, 0),
            },
        },
    }
}

/// Carries corresponding views over, destination by destination.
pub open spec fn lower_mapped_views<M: Target>(
    target: &M,
    s: StateModel,
    mappings: Seq<(ViewModel, ViewModel)>,
    logical: bool,
    order: ExchangeOrder,
    provenance: WorkProvenance,
) -> Step {
    match populate_from(
        target,
        s,
        filed_mappings(mappings, mappings.len() as int),
        logical,
        provenance,
        0,
        empty_batch(),
    ) {
        Err(e) => Err(e),
        Ok((next, batch)) => append_batch(next, batch, provenance, order),
    }
}

impl LoweringState {
    pub fn unpack_amp_to_row_major(&mut self, value: MidValueId, provenance: WorkProvenance) -> (r:
        LowLoweringResult<Option<Vec<LowShardId>>>)
        ensures
            match r {
                Ok(Some(staging)) => unpack_amp(old(self)@, value, provenance) == Ok::<
                    (StateModel, Option<Seq<LowShardId>>),
                    LowLoweringError,
                >((final(self)@, Some(staging@))),
                Ok(None) => unpack_amp(old(self)@, value, provenance) == Ok::<
                    (StateModel, Option<Seq<LowShardId>>),
                    LowLoweringError,
                >((final(self)@, None)),
                Err(e) => unpack_amp(old(self)@, value, provenance) == Err::<
                    (StateModel, Option<Seq<LowShardId>>),
                    LowLoweringError,
                >(e),
            },
    {
        broadcast use group_deep;

        let ids = self.value_shards(value)?;
        let mut k: usize = 0;
        while k < ids.len()
            invariant
                k <= ids@.len(),
                can_unpack_from(self@.shards, ids@, 0) == can_unpack_from(
                    self@.shards,
                    ids@,
                    k as int,
                ),
            decreases ids@.len() - k,
        {
            match self.shard(ids[k]) {
                Ok(shard) => {
                    if !is_unpackable(shard) {
                        return Ok(None);
                    }
                },
                Err(e) => {
                    return Err(e);
                },
            }
            k += 1;
        }
        let ghost start = self@;
        let mut staging: Vec<LowShardId> = Vec::new();
        let mut i: usize = 0;
        while i < ids.len()
            invariant
                i <= ids@.len(),
                unpack_from(start, ids@, provenance, 0, Seq::empty()) == unpack_from(
                    self@,
                    ids@,
                    provenance,
                    i as int,
                    staging@,
                ),
            decreases ids@.len() - i,
        {
            let shard = match self.shard(ids[i]) {
                Ok(shard) => shard.duplicate(),
                Err(e) => {
                    return Err(e);
                },
            };
            let ghost model = shard@;
            let tile = shard.tile;
            let copy = LowShard {
                id: LowShardId(0),
                tile,
                tensor_type: TensorType {
                    shape: shard.tensor_type.shape,
                    format: TensorFormat {
                        precision: shard.tensor_type.format.precision,
                        layout: Layout::local(ElementOrder::RowMajor, MemoryClass::Ipu21Standard),
                    },
                },
                extents: shard.extents,
                definition: ShardDefinition::Staging,
            };
            assert(copy@ == row_major_staging(model));
            let id = self.push_shard(copy)?;
            self.append_attention_rearrange(tile, ids[i], id, 4, provenance)?;
            staging.push(id);
            i += 1;
        }
        Ok(Some(staging))
    }

    fn is_unaligned<M: Target>(&self, target: &M, mappings: &Vec<(ShardView, ShardView)>) -> (r:
        LowLoweringResult<bool>)
        ensures
            r == unaligned_from(target, self@.shards, deep(mappings@), 0, false),
    {
        broadcast use group_deep;

        let ghost model = deep(mappings@);
        let mut unaligned = false;
        let mut k: usize = 0;
        while k < mappings.len()
            invariant
                k <= mappings@.len(),
                unaligned_from(target, self@.shards, model, 0, false) == unaligned_from(
                    target,
                    self@.shards,
                    model,
                    k as int,
                    unaligned,
                ),
            decreases mappings@.len() - k,
        {
            assert(model[k as int] == mappings@[k as int]@);
            match self.spans_of(target, &mappings[k].1, ExchangeOrder::Semantic) {
                Ok(spans) => {
                    let aligned = are_word_aligned(&spans);
                    unaligned = unaligned || !aligned;
                },
                Err(e) => {
                    return Err(e);
                },
            }
            k += 1;
        }
        Ok(unaligned)
    }

    fn order_differs(&self, mappings: &Vec<(ShardView, ShardView)>, order: ElementOrder) -> (r:
        LowLoweringResult<bool>)
        ensures
            r == order_differs_from(self@.shards, deep(mappings@), order, 0),
    {
        broadcast use group_deep;

        let ghost model = deep(mappings@);
        let mut k: usize = 0;
        while k < mappings.len()
            invariant
                k <= mappings@.len(),
                order_differs_from(self@.shards, model, order, 0) == order_differs_from(
                    self@.shards,
                    model,
                    order,
                    k as int,
                ),
            decreases mappings@.len() - k,
        {
            assert(model[k as int] == mappings@[k as int]@);
            match self.shard(mappings[k].0.shard) {
                Ok(shard) => {
                    if shard.tensor_type.format.layout.order != order {
                        return Ok(true);
                    }
                },
                Err(e) => {
                    return Err(e);
                },
            }
            k += 1;
        }
        Ok(false)
    }

    fn placement_of<M: Target>(
        &self,
        target: &M,
        destination: LowShardId,
        mappings: &Vec<(ShardView, ShardView)>,
        logical: bool,
    ) -> (r: LowLoweringResult<Placement>)
        ensures
            r == placement(target, self@.shards, destination, deep(mappings@), logical),
    {
        let order = match self.shard(destination) {
            Ok(shard) => shard.tensor_type.format.layout.order,
            Err(e) => {
                return Err(e);
            },
        };
        let unaligned = self.is_unaligned(target, mappings)?;
        if !logical {
            return Ok(Placement::Direct);
        }
        let differs = self.order_differs(mappings, order)?;
        if !differs && !unaligned {
            return Ok(Placement::Direct);
        }
        match self.mappings_benefit_from_word_exchange(target, mappings, destination) {
            Ok(true) => match self.shard_has_padding(destination) {
                Ok(true) => Ok(Placement::Cleared),
                Ok(false) => Ok(Placement::Direct),
                Err(e) => Err(e),
            },
            Ok(false) => Ok(Placement::Staged),
            Err(e) => Err(e),
        }
    }

    fn move_mappings<M: Target>(
        &self,
        target: &M,
        mappings: &Vec<(ShardView, ShardView)>,
        staging: Option<LowShardId>,
        logical: bool,
        batch: &mut Batch,
    ) -> (r: LowLoweringResult<()>)
        ensures
            match r {
                Ok(_) => move_from(
                    target,
                    self@.shards,
                    deep(mappings@),
                    staging,
                    logical,
                    0,
                    old(batch)@,
                ) == Ok::<BatchModel, LowLoweringError>(final(batch)@),
                Err(e) => move_from(
                    target,
                    self@.shards,
                    deep(mappings@),
                    staging,
                    logical,
                    0,
                    old(batch)@,
                ) == Err::<BatchModel, LowLoweringError>(e),
            },
            transfers_nonempty(old(batch)@.transfers) ==> transfers_nonempty(
                final(batch)@.transfers,
            ),
    {
        broadcast use group_deep;

        let ghost model = deep(mappings@);
        let ghost start = batch@;
        let order = if logical {
            ExchangeOrder::Semantic
        } else {
            ExchangeOrder::Physical
        };
        let mut k: usize = 0;
        while k < mappings.len()
            invariant
                k <= mappings@.len(),
                move_from(target, self@.shards, model, staging, logical, 0, start) == move_from(
                    target,
                    self@.shards,
                    model,
                    staging,
                    logical,
                    k as int,
                    batch@,
                ),
                transfers_nonempty(start.transfers) ==> transfers_nonempty(batch@.transfers),
            decreases mappings@.len() - k,
        {
            assert(model[k as int] == mappings@[k as int]@);
            let (from, into) = &mappings[k];
            let (source, destination) = match staging {
                Some(id) => (
                    ShardView {
                        shard: from.shard,
                        extents: without_padding(from.extents.as_slice()),
                    },
                    ShardView { shard: id, extents: without_padding(into.extents.as_slice()) },
                ),
                None => (from.duplicate(), into.duplicate()),
            };
            let source_tile = match self.shard(source.shard) {
                Ok(shard) => shard.tile,
                Err(e) => {
                    return Err(e);
                },
            };
            let destination_tile = match self.shard(destination.shard) {
                Ok(shard) => shard.tile,
                Err(e) => {
                    return Err(e);
                },
            };
            if source_tile == destination_tile {
                let r = match staging {
                    Some(_) => self.append_view_copies(
                        target,
                        &source,
                        &destination,
                        destination_tile,
                        order,
                        &mut batch.before,
                    ),
                    None => self.append_view_copies(
                        target,
                        &source,
                        &destination,
                        destination_tile,
                        order,
                        &mut batch.after,
                    ),
                };
                r?;
            } else {
                add_transfer_to(&mut batch.transfers, source, destination);
            }
            k += 1;
        }
        Ok(())
    }

    fn unstage<M: Target>(
        &self,
        target: &M,
        staging: LowShardId,
        destination: LowShardId,
        provenance: WorkProvenance,
        batch: &mut Batch,
    ) -> (r: LowLoweringResult<()>)
        ensures
            match r {
                Ok(_) => unstage(
                    target,
                    self@.shards,
                    staging,
                    destination,
                    provenance,
                    old(batch)@,
                ) == Ok::<BatchModel, LowLoweringError>(final(batch)@),
                Err(e) => unstage(
                    target,
                    self@.shards,
                    staging,
                    destination,
                    provenance,
                    old(batch)@,
                ) == Err::<BatchModel, LowLoweringError>(e),
            },
            final(batch)@.transfers == old(batch)@.transfers,
    {
        broadcast use group_deep;

        let from = match self.shard(staging) {
            Ok(shard) => shard.duplicate(),
            Err(e) => {
                return Err(e);
            },
        };
        let to = match self.shard(destination) {
            Ok(shard) => shard.duplicate(),
            Err(e) => {
                return Err(e);
            },
        };
        let ghost from_model = from@;
        let ghost to_model = to@;
        let tile = to.tile;
        let packs = from.tensor_type.format.precision == Precision::F16
            && match to.tensor_type.format.layout.order {
            ElementOrder::Amp(AmpOrder::Left) => true,
            ElementOrder::Amp(AmpOrder::TransposedRight) => true,
            ElementOrder::BlockMajor(BlockMajorOrder::Matrix { .. }) => true,
            _ => false,
        };
        if packs {
            let mut operands: Vec<MemoryOperand> = Vec::new();
            operands.push(MemoryOperand::Input(0));
            operands.push(MemoryOperand::Output);
            assert(operands@ =~= seq![MemoryOperand::Input(0), MemoryOperand::Output]);
            let mut relations: Vec<MemoryRelation> = Vec::new();
            relations.push(MemoryRelation::DistinctElements(operands));
            assert(deep(relations@) =~= seq![
                seq![MemoryOperand::Input(0), MemoryOperand::Output],
            ]);
            let run = KernelRun::new(
                provenance,
                TileKernel::Planned(
                    KernelSpec::Rearrange {
                        from: from.tensor_type.format.layout.duplicate(),
                        to: to.tensor_type.format.layout.duplicate(),
                    },
                ),
                one_operand(ShardView { shard: staging, extents: from.extents }),
                ShardView { shard: destination, extents: to.extents },
                KernelRequirements::Conversion {
                    input: OperandRequirement::new(from.tensor_type.format, 2),
                    output: OperandRequirement::new(to.tensor_type.format, 2),
                    memory_relations: relations,
                },
            );
            assert(run@ == packing_run(staging, from_model, destination, to_model, provenance));
            batch.kernels.push((tile, run));
            Ok(())
        } else {
            let source = ShardView { shard: staging, extents: from.extents };
            let into = ShardView {
                shard: destination,
                extents: without_padding(to.extents.as_slice()),
            };
            self.append_view_copies(
                target,
                &source,
                &into,
                tile,
                ExchangeOrder::Semantic,
                &mut batch.after,
            )
        }
    }

    fn populate<M: Target>(
        &mut self,
        target: &M,
        mappings: &Vec<(ShardView, ShardView)>,
        logical: bool,
        provenance: WorkProvenance,
        batch: &mut Batch,
    ) -> (r: LowLoweringResult<()>)
        requires
            mappings@.len() > 0,
        ensures
            match r {
                Ok(_) => populate(
                    target,
                    old(self)@,
                    deep(mappings@),
                    logical,
                    provenance,
                    old(batch)@,
                ) == Ok::<(StateModel, BatchModel), LowLoweringError>(
                    (final(self)@, final(batch)@),
                ),
                Err(e) => populate(
                    target,
                    old(self)@,
                    deep(mappings@),
                    logical,
                    provenance,
                    old(batch)@,
                ) == Err::<(StateModel, BatchModel), LowLoweringError>(e),
            },
            transfers_nonempty(old(batch)@.transfers) ==> transfers_nonempty(
                final(batch)@.transfers,
            ),
    {
        broadcast use group_deep;

        let destination = mappings[0].1.shard;
        assert(deep(mappings@)[0] == mappings@[0]@);
        match self.placement_of(target, destination, mappings, logical) {
            Err(e) => Err(e),
            Ok(Placement::Direct) => self.move_mappings(target, mappings, None, logical, batch),
            Ok(Placement::Cleared) => {
                self.append_fill_zero(destination, provenance)?;
                self.move_mappings(target, mappings, None, logical, batch)
            },
            Ok(Placement::Staged) => {
                let shard = match self.shard(destination) {
                    Ok(shard) => shard.duplicate(),
                    Err(e) => {
                        return Err(e);
                    },
                };
                let ghost model = shard@;
                let copy = LowShard {
                    id: LowShardId(0),
                    tile: shard.tile,
                    tensor_type: TensorType {
                        shape: shard.tensor_type.shape,
                        format: TensorFormat {
                            precision: shard.tensor_type.format.precision,
                            layout: Layout::local(
                                ElementOrder::RowMajor,
                                MemoryClass::Ipu21Standard,
                            ),
                        },
                    },
                    extents: without_padding(shard.extents.as_slice()),
                    definition: ShardDefinition::Staging,
                };
                assert(copy@ == conversion_staging(model));
                let staging = self.push_shard(copy)?;
                self.move_mappings(target, mappings, Some(staging), logical, batch)?;
                self.unstage(target, staging, destination, provenance, batch)
            },
        }
    }

    pub fn lower_mapped_views<M: Target>(
        &mut self,
        target: &M,
        mappings: Vec<(ShardView, ShardView)>,
        logical: bool,
        order: ExchangeOrder,
        provenance: WorkProvenance,
    ) -> (r: LowLoweringResult<()>)
        ensures
            did(
                r,
                final(self)@,
                lower_mapped_views(
                    target,
                    old(self)@,
                    deep(mappings@),
                    logical,
                    order,
                    provenance,
                ),
            ),
    {
        broadcast use group_deep;

        let ghost model = deep(mappings@);
        let mut grouped: Groups<(ShardView, ShardView)> = Groups::new();
        let mut i: usize = 0;
        while i < mappings.len()
            invariant
                i <= mappings@.len(),
                grouped@ == filed_mappings(model, i as int),
                forall|g: int|
                    0 <= g < grouped@.len() ==> (#[trigger] grouped@[g]).items.len() > 0,
            decreases mappings@.len() - i,
        {
            let (from, into) = &mappings[i];
            assert(model[i as int] == (from@, into@));
            let key = key_of_id(into.shard);
            proof {
                lemma_insert_nonempty(grouped@, key@, model[i as int]);
            }
            grouped.insert(key, (from.duplicate(), into.duplicate()));
            i += 1;
        }
        let ghost groups = grouped@;
        let ghost start = self@;
        let mut batch = Batch {
            transfers: Groups::new(),
            before: Vec::new(),
            after: Vec::new(),
            kernels: Vec::new(),
        };
        assert(batch@ == empty_batch());
        let mut k: usize = 0;
        while k < grouped.entries.len()
            invariant
                k <= grouped.entries@.len(),
                grouped@ == groups,
                populate_from(target, start, groups, logical, provenance, 0, empty_batch())
                    == populate_from(
                    target,
                    self@,
                    groups,
                    logical,
                    provenance,
                    k as int,
                    batch@,
                ),
                transfers_nonempty(batch@.transfers),
            decreases grouped.entries@.len() - k,
        {
            assert(groups[k as int] == grouped.entries@[k as int]@);
            assert(groups[k as int].items.len() > 0);
            self.populate(
                target,
                &grouped.entries[k].items,
                logical,
                provenance,
                &mut batch,
            )?;
            k += 1;
        }
        self.append_batch(batch, provenance, order)
    }

    fn append_batch(
        &mut self,
        batch: Batch,
        provenance: WorkProvenance,
        order: ExchangeOrder,
    ) -> (r: LowLoweringResult<()>)
        requires
            transfers_nonempty(batch@.transfers),
        ensures
            did(r, final(self)@, append_batch(old(self)@, batch@, provenance, order)),
    {
        self.append_copies(&batch.before)?;
        self.append_ordered_phase(&batch.transfers, provenance, order)?;
        self.append_copies(&batch.after)?;
        self.append_kernels(batch.kernels)
    }
}

// ---------------------------------------------------------------- conversions

/// The run that converts one resident shard into another.
pub open spec fn conversion_run(
    plan: ConversionPlan,
    input: ViewModel,
    output: ViewModel,
    provenance: WorkProvenance,
) -> RunModel {
    RunModel {
        metadata: MetadataModel {
            provenance,
            kernel: plan.kernel@,
            requirements: RequirementsModel::Conversion {
                input: plan.input@,
                output: plan.output@,
                memory_relations: Seq::empty(),
            },
        },
        inputs: seq![seq![input]],
        output,
    }
}

/// Converts the outputs from `k` on, each from the input shard on its tile.
pub open spec fn convert_locally_from(
    s: StateModel,
    plan: ConversionPlan,
    input: MidValueId,
    outputs: Seq<LowShardId>,
    provenance: WorkProvenance,
    k: int,
) -> Step
    decreases outputs.len() - k,
{
    if k >= outputs.len() {
        Ok(s)
    } else {
        match shard_of(s.shards, outputs[k]) {
            Err(e) => Err(e),
            Ok(to) => match local_shard(s, input, to.tile) {
                Err(e) => Err(e),
                Ok(id) => match full_view(s.shards, id) {
                    Err(e) => Err(e),
                    Ok(from) => match append_kernel(
                        s,
                        to.tile,
                        conversion_run(
                            plan,
                            from,
                            ViewModel { shard: outputs[k], extents: to.extents },
                            provenance,
                        ),
                    ) {
                        Err(e) => Err(e),
                        Ok(next) => convert_locally_from(
                            next,
                            plan,
                            input,
                            outputs,
                            provenance,
                            k + 1,
                        ),
                    },
                },
            },
        }
    }
}

/// A conversion that every tile makes for itself.
pub open spec fn lower_local_conversion(
    s: StateModel,
    operation: MidOperation,
    plan: ConversionPlan,
) -> Step {
    if operation.inputs@.len() != 1 {
        Err(LowLoweringError::InvalidConversionPlan)
    } else if operation.results@.len() != 1 {
        Err(LowLoweringError::ResultArity)
    } else {
        match value_shards(s, operation.results@[0]) {
            Err(e) => Err(e),
            Ok(outputs) => convert_locally_from(
                s,
                plan,
                operation.inputs@[0],
                outputs,
                provenance_of(operation),
                0,
            ),
        }
    }
}

/// The last view, before position `i`, whose shard is on the tile.
pub open spec fn last_view_on(
    shards: Seq<ShardModel>,
    views: Seq<ViewModel>,
    tile: u16,
    i: int,
) -> Option<ViewModel>
    decreases i,
{
    if i <= 0 {
        None
    } else if resides(shards, views[i - 1].shard, tile) {
        Some(views[i - 1])
    } else {
        last_view_on(shards, views, tile, i - 1)
    }
}

/// One of the source parts with the same rectangle: the last on the tile, and
/// else the first.
pub open spec fn retile_source(
    shards: Seq<ShardModel>,
    views: Seq<ViewModel>,
    tile: u16,
) -> ViewModel {
    match last_view_on(shards, views, tile, views.len() as int) {
        Some(view) => view,
        None => views[0],
    }
}

/// `done` followed by the mappings of the filed source parts from `g` on.
pub open spec fn part_retiling_from(
    shards: Seq<ShardModel>,
    filed: Seq<GroupModel<ViewModel>>,
    output: LowShardId,
    tile: u16,
    g: int,
    done: Seq<(ViewModel, ViewModel)>,
) -> Seq<(ViewModel, ViewModel)>
    decreases filed.len() - g,
{
    if g >= filed.len() {
        done
    } else {
        let source = retile_source(shards, filed[g].items, tile);
        part_retiling_from(
            shards,
            filed,
            output,
            tile,
            g + 1,
            done.push((source, ViewModel { shard: output, extents: source.extents })),
        )
    }
}

/// `done` followed by the mappings that fill the outputs from `k` on with the
/// same elements of the sources.
pub open spec fn retiling_from(
    shards: Seq<ShardModel>,
    sources: Seq<LowShardId>,
    outputs: Seq<LowShardId>,
    k: int,
    done: Seq<(ViewModel, ViewModel)>,
) -> Result<Seq<(ViewModel, ViewModel)>, LowLoweringError>
    decreases outputs.len() - k,
{
    if k >= outputs.len() {
        Ok(done)
    } else {
        match shard_of(shards, outputs[k]) {
            Err(e) => Err(e),
            Ok(to) => retiling_from(
                shards,
                sources,
                outputs,
                k + 1,
                part_retiling_from(
                    shards,
                    filed_parts(shards, sources, to.extents, sources.len() as int),
                    outputs[k],
                    to.tile,
                    0,
                    done,
                ),
            ),
        }
    }
}

/// Moves the intersections of source and result shards.
pub open spec fn gather_intersections<M: Target>(
    target: &M,
    s: StateModel,
    operation: MidOperation,
    strategy: ConversionStrategy,
) -> Step {
    if operation.inputs@.len() != 1 {
        Err(LowLoweringError::InvalidConversionPlan)
    } else if operation.results@.len() != 1 {
        Err(LowLoweringError::ResultArity)
    } else {
        match value_shards(s, operation.inputs@[0]) {
            Err(e) => Err(e),
            Ok(sources) => match value_shards(s, operation.results@[0]) {
                Err(e) => Err(e),
                Ok(outputs) => if strategy == ConversionStrategy::LocalKernel {
                    Err(LowLoweringError::InvalidConversionPlan)
                } else {
                    match retiling_from(s.shards, sources, outputs, 0, Seq::empty()) {
                        Err(e) => Err(e),
                        Ok(mappings) => lower_mapped_views(
                            target,
                            s,
                            mappings,
                            strategy == ConversionStrategy::StageLogicalThenTransform,
                            ExchangeOrder::Semantic,
                            provenance_of(operation),
                        ),
                    }
                },
            },
        }
    }
}

/// A conversion that moves the intersections of source and result shards.
pub open spec fn lower_intersection_conversion<M: Target>(
    target: &M,
    s: StateModel,
    operation: MidOperation,
    plan: ConversionPlan,
) -> Step {
    gather_intersections(target, s, operation, plan.strategy)
}

/// A conversion carried out as its plan says. Without a plan, the source is
/// gathered where the result is.
pub open spec fn lower_conversion<M: Target>(
    target: &M,
    s: StateModel,
    operation: MidOperation,
) -> Step {
    match operation.conversion_plan {
        None => lower_unplanned_conversion(target, s, operation),
        Some(plan) => if plan.strategy == ConversionStrategy::LocalKernel {
            lower_local_conversion(s, operation, plan)
        } else {
            lower_intersection_conversion(target, s, operation, plan)
        },
    }
}

impl LoweringState {
    pub fn lower_local_conversion(&mut self, operation: &MidOperation, plan: &ConversionPlan) -> (r:
        LowLoweringResult<()>)
        ensures
            did(r, final(self)@, lower_local_conversion(old(self)@, *operation, *plan)),
    {
        broadcast use group_deep;

        if operation.inputs.len() != 1 {
            return Err(LowLoweringError::InvalidConversionPlan);
        }
        if operation.results.len() != 1 {
            return Err(LowLoweringError::ResultArity);
        }
        let input = operation.inputs[0];
        let outputs = self.value_shards(operation.results[0])?;
        let provenance = operation_provenance(operation);
        let ghost start = self@;
        let mut k: usize = 0;
        while k < outputs.len()
            invariant
                k <= outputs@.len(),
                convert_locally_from(start, *plan, input, outputs@, provenance, 0)
                    == convert_locally_from(
                    self@,
                    *plan,
                    input,
                    outputs@,
                    provenance,
                    k as int,
                ),
            decreases outputs@.len() - k,
        {
            let output = self.full_view(outputs[k])?;
            let tile: u16 = self.shard(outputs[k])?.tile;
            let id = self.local_shard(input, tile)?;
            let from = self.full_view(id)?;
            let ghost expected = conversion_run(*plan, from@, output@, provenance);
            let run = KernelRun::new(
                provenance,
                TileKernel::Planned(plan.kernel.duplicate()),
                one_operand(from),
                output,
                KernelRequirements::Conversion {
                    input: plan.input.duplicate(),
                    output: plan.output.duplicate(),
                    memory_relations: Vec::new(),
                },
            );
            assert(run@ == expected);
            self.append_kernel(tile, run)?;
            k += 1;
        }
        Ok(())
    }

    pub(crate) fn retiling(&self, sources: &Vec<LowShardId>, outputs: &Vec<LowShardId>) -> (r:
        LowLoweringResult<Vec<(ShardView, ShardView)>>)
        ensures
            found_all(
                r,
                retiling_from(self@.shards, sources@, outputs@, 0, Seq::empty()),
            ),
    {
        broadcast use group_deep;

        let mut mappings: Vec<(ShardView, ShardView)> = Vec::new();
        let mut k: usize = 0;
        while k < outputs.len()
            invariant
                k <= outputs@.len(),
                retiling_from(self@.shards, sources@, outputs@, 0, Seq::empty())
                    == retiling_from(
                    self@.shards,
                    sources@,
                    outputs@,
                    k as int,
                    deep(mappings@),
                ),
            decreases outputs@.len() - k,
        {
            let output = outputs[k];
            let shard = self.shard(output)?;
            let tile: u16 = shard.tile;
            let filed = self.file_parts(sources, shard.extents.as_slice());
            let ghost model = filed@;
            let ghost before = deep(mappings@);
            let mut g: usize = 0;
            while g < filed.entries.len()
                invariant
                    g <= filed.entries@.len(),
                    filed@ == model,
                    part_retiling_from(self@.shards, model, output, tile, 0, before)
                        == part_retiling_from(
                        self@.shards,
                        model,
                        output,
                        tile,
                        g as int,
                        deep(mappings@),
                    ),
                decreases filed.entries@.len() - g,
            {
                let items = &filed.entries[g].items;
                assert(model[g as int] == filed.entries@[g as int]@);
                assert(model[g as int].items.len() > 0);
                let ghost views = deep(items@);
                let mut i: usize = items.len();
                let mut chosen: usize = 0;
                let mut local = false;
                while i > 0 && !local
                    invariant
                        i <= items@.len(),
                        chosen < items@.len(),
                        !local ==> chosen == 0 && last_view_on(
                            self@.shards,
                            views,
                            tile,
                            views.len() as int,
                        ) == last_view_on(self@.shards, views, tile, i as int),
                        local ==> last_view_on(self@.shards, views, tile, views.len() as int)
                            == Some(views[chosen as int]),
                    decreases i,
                {
                    if self.resides(items[i - 1].shard, tile) {
                        chosen = i - 1;
                        local = true;
                    }
                    i -= 1;
                }
                let source = items[chosen].duplicate();
                let into = ShardView {
                    shard: output,
                    extents: copy_all(source.extents.as_slice()),
                };
                mappings.push((source, into));
                g += 1;
            }
            k += 1;
        }
        Ok(mappings)
    }

    pub(crate) fn gather_intersections<M: Target>(
        &mut self,
        target: &M,
        operation: &MidOperation,
        strategy: ConversionStrategy,
    ) -> (r: LowLoweringResult<()>)
        ensures
            did(
                r,
                final(self)@,
                gather_intersections(target, old(self)@, *operation, strategy),
            ),
    {
        if operation.inputs.len() != 1 {
            return Err(LowLoweringError::InvalidConversionPlan);
        }
        if operation.results.len() != 1 {
            return Err(LowLoweringError::ResultArity);
        }
        let sources = self.value_shards(operation.inputs[0])?;
        let outputs = self.value_shards(operation.results[0])?;
        let logical = match strategy {
            ConversionStrategy::DirectRetile => false,
            ConversionStrategy::StageLogicalThenTransform => true,
            ConversionStrategy::LocalKernel => {
                return Err(LowLoweringError::InvalidConversionPlan);
            },
        };
        let mappings = self.retiling(&sources, &outputs)?;
        self.lower_mapped_views(
            target,
            mappings,
            logical,
            ExchangeOrder::Semantic,
            operation_provenance(operation),
        )
    }

    pub fn lower_intersection_conversion<M: Target>(
        &mut self,
        target: &M,
        operation: &MidOperation,
        plan: &ConversionPlan,
    ) -> (r: LowLoweringResult<()>)
        ensures
            did(
                r,
                final(self)@,
                lower_intersection_conversion(target, old(self)@, *operation, *plan),
            ),
    {
        self.gather_intersections(target, operation, plan.strategy)
    }

    pub fn lower_conversion<M: Target>(&mut self, target: &M, operation: &MidOperation) -> (r:
        LowLoweringResult<()>)
        ensures
            did(r, final(self)@, lower_conversion(target, old(self)@, *operation)),
    {
        match &operation.conversion_plan {
            None => self.lower_unplanned_conversion(target, operation),
            Some(plan) => match plan.strategy {
                ConversionStrategy::LocalKernel => self.lower_local_conversion(operation, plan),
                _ => self.lower_intersection_conversion(target, operation, plan),
            },
        }
    }
}

} // verus!
