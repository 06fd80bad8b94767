//! Carrying out copies between blocks: local copies and kernels before and
//! after one exchange, with scratch storage where bytes are not whole words.

use crate::block_packing::{
    append_copy_clears, in_row_major, is_staged, pack_kernel, packing_kernel, row_major_type,
    select_destination_packing, useful, without_padding, PackingPolicy,
};
use crate::block_panels::{micro_panel_mappings, Mapping, ViewMapping};
use crate::blocks::{
    block_of, block_spans, bound, built, new_plain_run, one_view, plain_run, push_block,
    whole_block, with_block_copies, BlockKernel, BlockKernelModel, BlockRun, BlockRunModel,
    BlockStep, BlockTarget, BuilderModel, CopyMapping, CopyOrder, DestinationGeometry,
    ExpansionError, ExpansionResult, MappingModel, Region, TileGraphBuilder,
};
use crate::fragments::{all_word_aligned, are_word_aligned, sum_bytes, total_bytes};
use crate::low::{
    LocalCopy, LowShard, LowShardId, ShardDefinition, ShardModel, ShardView, ViewModel,
    WorkProvenance,
};
use crate::model::{Model, copy_all, deep, group_deep};
use crate::order::{groups_insert, key_of_id, lemma_insert_nonempty, GroupModel, Groups};
use crate::phase::{add_transfer, add_transfer_to, transfers_nonempty};
use crate::state::{Transfers, TransfersModel};
use crate::tensor::{
    replicated_layout, ByteSpan, ElementOrder, FormatModel, Layout, MemoryClass, Precision,
    ShardExtent, TensorFormat, TensorShape, TensorType, TypeModel,
};
use vstd::prelude::*;

verus! {

// ---------------------------------------------------------------- batches

/// A copy on one tile that may join a transfer of its source.
#[derive(Debug)]
pub struct Loopback {
    pub source: ShardView,
    pub destination: ShardView,
    pub order: CopyOrder,
}

/// Abstract value of a [`Loopback`].
pub struct LoopbackModel {
    pub source: ViewModel,
    pub destination: ViewModel,
    pub order: CopyOrder,
}

impl View for Loopback {
    type V = LoopbackModel;

    open spec fn view(&self) -> LoopbackModel {
        LoopbackModel {
            source: self.source@,
            destination: self.destination@,
            order: self.order,
        }
    }
}

/// Work that populates blocks around one exchange.
#[derive(Debug)]
pub struct MaterializationBatch {
    pub semantic: Transfers,
    pub physical: Transfers,
    pub panels: Transfers,
    pub before: Vec<(u16, LocalCopy)>,
    pub after: Vec<(u16, LocalCopy)>,
    pub kernels: Vec<(u16, BlockRun)>,
    pub loopbacks: Vec<Loopback>,
}

/// Abstract value of a [`MaterializationBatch`].
pub struct BatchModel {
    pub semantic: TransfersModel,
    pub physical: TransfersModel,
    pub panels: TransfersModel,
    pub before: Seq<(u16, LocalCopy)>,
    pub after: Seq<(u16, LocalCopy)>,
    pub kernels: Seq<(u16, BlockRunModel)>,
    pub loopbacks: Seq<LoopbackModel>,
}

impl View for MaterializationBatch {
    type V = BatchModel;

    open spec fn view(&self) -> BatchModel {
        BatchModel {
            semantic: self.semantic@,
            physical: self.physical@,
            panels: self.panels@,
            before: self.before@,
            after: self.after@,
            kernels: deep(self.kernels@),
            loopbacks: deep(self.loopbacks@),
        }
    }
}

/// No work.
pub open spec fn empty_batch() -> BatchModel {
    BatchModel {
        semantic: Seq::empty(),
        physical: Seq::empty(),
        panels: Seq::empty(),
        before: Seq::empty(),
        after: Seq::empty(),
        kernels: Seq::empty(),
        loopbacks: Seq::empty(),
    }
}

/// Every source of a batch has a destination.
pub open spec fn well_filed(batch: BatchModel) -> bool {
    &&& transfers_nonempty(batch.semantic)
    &&& transfers_nonempty(batch.physical)
    &&& transfers_nonempty(batch.panels)
}

/// The transfers in one order.
pub open spec fn transfers_in(batch: BatchModel, order: CopyOrder) -> TransfersModel {
    match order {
        CopyOrder::Semantic => batch.semantic,
        CopyOrder::Physical => batch.physical,
        CopyOrder::Panels => batch.panels,
    }
}

/// A batch with one more transfer.
pub open spec fn with_transfer(
    batch: BatchModel,
    order: CopyOrder,
    source: ViewModel,
    destination: ViewModel,
) -> BatchModel {
    let transfers = add_transfer(transfers_in(batch, order), source, destination);
    match order {
        CopyOrder::Semantic => BatchModel { semantic: transfers, ..batch },
        CopyOrder::Physical => BatchModel { physical: transfers, ..batch },
        CopyOrder::Panels => BatchModel { panels: transfers, ..batch },
    }
}

impl MaterializationBatch {
    /// No work.
    pub fn new() -> (r: Self)
        ensures
            r@ == empty_batch(),
            well_filed(r@),
    {
        broadcast use group_deep;

        let r = MaterializationBatch {
            semantic: Groups::new(),
            physical: Groups::new(),
            panels: Groups::new(),
            before: Vec::new(),
            after: Vec::new(),
            kernels: Vec::new(),
            loopbacks: Vec::new(),
        };
        assert(r@.before =~= empty_batch().before);
        assert(r@.after =~= empty_batch().after);
        r
    }

    /// Records a transfer.
    pub fn add_transfer(&mut self, order: CopyOrder, source: ShardView, destination: ShardView)
        requires
            well_filed(old(self)@),
        ensures
            final(self)@ == with_transfer(old(self)@, order, source@, destination@),
            well_filed(final(self)@),
    {
        match order {
            CopyOrder::Semantic => {
                add_transfer_to(&mut self.semantic, source, destination);
            },
            CopyOrder::Physical => {
                add_transfer_to(&mut self.physical, source, destination);
            },
            CopyOrder::Panels => {
                add_transfer_to(&mut self.panels, source, destination);
            },
        }
    }
}

/// Scratch storage that holds a source as whole words.
#[derive(Debug)]
pub struct PackedSource {
    pub order: CopyOrder,
    pub source: ShardView,
    pub view: ShardView,
}

/// Abstract value of a [`PackedSource`].
pub struct PackedModel {
    pub order: CopyOrder,
    pub source: ViewModel,
    pub view: ViewModel,
}

impl View for PackedSource {
    type V = PackedModel;

    open spec fn view(&self) -> PackedModel {
        PackedModel { order: self.order, source: self.source@, view: self.view@ }
    }
}

/// A graph with the work that is being collected for it.
pub struct MoveModel {
    pub graph: BuilderModel,
    pub batch: BatchModel,
    pub packed: Seq<PackedModel>,
}

/// What a step of collecting leaves, or an error.
pub type MoveStep = Result<MoveModel, ExpansionError>;

/// `r` is what `step` promises.
pub open spec fn collected(
    r: ExpansionResult<()>,
    graph: BuilderModel,
    batch: BatchModel,
    packed: Seq<PackedModel>,
    step: MoveStep,
) -> bool {
    match r {
        Ok(_) => step == Ok::<MoveModel, ExpansionError>(MoveModel { graph, batch, packed }),
        Err(e) => step == Err::<MoveModel, ExpansionError>(e),
    }
}

// ---------------------------------------------------------------- sources

/// The scratch storage of a source, from position `i` on.
pub open spec fn packed_view(
    packed: Seq<PackedModel>,
    order: CopyOrder,
    source: ViewModel,
    i: int,
) -> Option<ViewModel>
    decreases packed.len() - i,
{
    if i >= packed.len() {
        None
    } else if packed[i].order == order && packed[i].source == source {
        Some(packed[i].view)
    } else {
        packed_view(packed, order, source, i + 1)
    }
}

/// A block of elements in a row.
pub open spec fn flat_block(tile: u16, precision: Precision, elements: u32) -> ShardModel {
    ShardModel {
        id: LowShardId(0),
        tile,
        tensor_type: TypeModel {
            shape: seq![elements],
            format: FormatModel {
                precision,
                layout: replicated_layout(ElementOrder::RowMajor, MemoryClass::Ipu21Standard),
            },
        },
        extents: seq![
            ShardExtent { axis: 0, start: 0, logical_end: elements, physical_end: elements },
        ],
        definition: ShardDefinition::Staging,
    }
}

/// Brings a source into scratch storage, as whole words. A source that is there
/// already is not brought again.
pub open spec fn pack_source<M: BlockTarget>(
    target: &M,
    m: MoveModel,
    source: ViewModel,
    order: CopyOrder,
) -> Result<(MoveModel, ViewModel), ExpansionError> {
    match packed_view(m.packed, order, source, 0) {
        Some(view) => Ok((m, view)),
        None => match block_of(m.graph.shards, source.shard) {
            Err(e) => Err(e),
            Ok(block) => match block_spans(target, m.graph.shards, source, order) {
                Err(e) => Err(e),
                Ok(spans) => {
                    let bytes = total_bytes(spans, spans.len() as int);
                    let elements = bytes / block.tensor_type.format.precision.spec_bytes() as nat;
                    if bytes == 0 || bytes % 4 != 0 {
                        Err(ExpansionError::InvalidCopyPlan)
                    } else if elements > u32::MAX {
                        Err(ExpansionError::IdOverflow)
                    } else {
                        pack_elements(
                            target,
                            m,
                            source,
                            order,
                            flat_block(
                                block.tile,
                                block.tensor_type.format.precision,
                                elements as u32,
                            ),
                        )
                    }
                },
            },
        },
    }
}

/// Copies a source into new scratch storage.
pub open spec fn pack_elements<M: BlockTarget>(
    target: &M,
    m: MoveModel,
    source: ViewModel,
    order: CopyOrder,
    block: ShardModel,
) -> Result<(MoveModel, ViewModel), ExpansionError> {
    match push_block(m.graph, block) {
        Err(e) => Err(e),
        Ok((graph, id)) => {
            let view = ViewModel { shard: id, extents: block.extents };
            match with_block_copies(
                target,
                graph.shards,
                source,
                view,
                block.tile,
                order,
                m.batch.before,
            ) {
                Err(e) => Err(e),
                Ok(before) => Ok(
                    (
                        MoveModel {
                            graph,
                            batch: BatchModel { before, ..m.batch },
                            packed: m.packed.push(PackedModel { order, source, view }),
                        },
                        view,
                    ),
                ),
            }
        },
    }
}

// ---------------------------------------------------------------- one copy

/// A mapping that goes through scratch storage of its destination.
pub open spec fn redirected(mapping: Mapping, staging: Option<LowShardId>) -> Mapping {
    match staging {
        None => mapping,
        Some(id) => (
            ViewModel { extents: useful(mapping.0.extents), ..mapping.0 },
            ViewModel { shard: id, extents: useful(mapping.1.extents) },
        ),
    }
}

/// Collects one copy: between tiles as a transfer, and on one tile as a copy or
/// as a candidate for joining a transfer.
pub open spec fn collect_mapping<M: BlockTarget>(
    target: &M,
    m: MoveModel,
    mapping: Mapping,
    staging: Option<LowShardId>,
    copy_order: CopyOrder,
    exchange_order: CopyOrder,
) -> MoveStep {
    let (source, destination) = redirected(mapping, staging);
    match block_of(m.graph.shards, source.shard) {
        Err(e) => Err(e),
        Ok(a) => match block_of(m.graph.shards, destination.shard) {
            Err(e) => Err(e),
            Ok(b) => if a.tile == b.tile {
                if staging is None && copy_order == exchange_order
                    && a.tensor_type.format.layout.memory_class == MemoryClass::Ipu21Standard {
                    Ok(
                        MoveModel {
                            batch: BatchModel {
                                loopbacks: m.batch.loopbacks.push(
                                    LoopbackModel { source, destination, order: copy_order },
                                ),
                                ..m.batch
                            },
                            ..m
                        },
                    )
                } else {
                    match with_block_copies(
                        target,
                        m.graph.shards,
                        source,
                        destination,
                        b.tile,
                        copy_order,
                        if staging is Some {
                            m.batch.before
                        } else {
                            m.batch.after
                        },
                    ) {
                        Err(e) => Err(e),
                        Ok(copies) => Ok(
                            MoveModel {
                                batch: if staging is Some {
                                    BatchModel { before: copies, ..m.batch }
                                } else {
                                    BatchModel { after: copies, ..m.batch }
                                },
                                ..m
                            },
                        ),
                    }
                }
            } else {
                match words_of(target, m, source, exchange_order) {
                    Err(e) => Err(e),
                    Ok((next, words)) => Ok(
                        MoveModel {
                            batch: with_transfer(next.batch, exchange_order, words, destination),
                            ..next
                        },
                    ),
                }
            },
        },
    }
}

/// A source as whole words: itself, or scratch storage that holds it.
pub open spec fn words_of<M: BlockTarget>(
    target: &M,
    m: MoveModel,
    source: ViewModel,
    order: CopyOrder,
) -> Result<(MoveModel, ViewModel), ExpansionError> {
    if order == CopyOrder::Panels {
        Ok((m, source))
    } else {
        match block_spans(target, m.graph.shards, source, order) {
            Err(e) => Err(e),
            Ok(spans) => if all_word_aligned(spans) {
                Ok((m, source))
            } else {
                pack_source(target, m, source, order)
            },
        }
    }
}

/// Collects the copies from `i` on.
pub open spec fn collect_mappings_from<M: BlockTarget>(
    target: &M,
    m: MoveModel,
    mappings: Seq<Mapping>,
    staging: Option<LowShardId>,
    copy_order: CopyOrder,
    exchange_order: CopyOrder,
    i: int,
) -> MoveStep
    decreases mappings.len() - i,
{
    if i >= mappings.len() {
        Ok(m)
    } else {
        match collect_mapping(target, m, mappings[i], staging, copy_order, exchange_order) {
            Err(e) => Err(e),
            Ok(next) => collect_mappings_from(
                target,
                next,
                mappings,
                staging,
                copy_order,
                exchange_order,
                i + 1,
            ),
        }
    }
}

// ---------------------------------------------------------------- one destination

/// `done` followed by the storage of the copies from `i` on. Every copy goes
/// into the destination, and lies inside its blocks.
pub open spec fn mapped_storage_from(
    shards: Seq<ShardModel>,
    destination: LowShardId,
    mappings: Seq<Mapping>,
    i: int,
    done: Seq<MappingModel>,
) -> Result<Seq<MappingModel>, ExpansionError>
    decreases mappings.len() - i,
{
    if i >= mappings.len() {
        Ok(done)
    } else {
        let (source, to) = mappings[i];
        match bound(shards, source) {
            Err(e) => Err(e),
            Ok(block) => match bound(shards, to) {
                Err(e) => Err(e),
                Ok(_) => if to.shard != destination {
                    Err(ExpansionError::InvalidCopyPlan)
                } else {
                    mapped_storage_from(
                        shards,
                        destination,
                        mappings,
                        i + 1,
                        done.push(
                            MappingModel {
                                format: block.tensor_type.format,
                                allocation: block.extents,
                                source: source.extents,
                                destination: to.extents,
                            },
                        ),
                    )
                },
            },
        }
    }
}

/// The rectangles that copies write.
pub open spec fn written(mappings: Seq<Mapping>) -> Seq<Seq<ShardExtent>> {
    Seq::new(mappings.len(), |i: int| mappings[i].1.extents)
}

/// Clears the bytes of a block that the copies do not write.
pub open spec fn clear_unwritten<M: BlockTarget>(
    target: &M,
    s: BuilderModel,
    shard: LowShardId,
    mappings: Seq<Mapping>,
    order: CopyOrder,
    provenance: WorkProvenance,
) -> BlockStep {
    match block_of(s.shards, shard) {
        Err(e) => Err(e),
        Ok(block) => match target.spec_uncovered(
            block.tensor_type.format,
            block.extents,
            written(mappings),
            order,
        ) {
            Err(e) => Err(ExpansionError::Storage(e)),
            Ok(ranges) => append_copy_clears(target, s, shard, ranges, provenance),
        },
    }
}

/// Scratch storage for a block: its useful elements in row-major order.
pub open spec fn staging_block(block: ShardModel) -> ShardModel {
    ShardModel {
        id: LowShardId(0),
        tile: block.tile,
        tensor_type: row_major_type(block.tensor_type),
        extents: useful(block.extents),
        definition: ShardDefinition::Staging,
    }
}

/// Moves a block out of its scratch storage, after the exchange.
pub open spec fn unload_staging<M: BlockTarget>(
    target: &M,
    m: MoveModel,
    destination: LowShardId,
    staging: LowShardId,
    provenance: WorkProvenance,
) -> MoveStep {
    match (
        block_of(m.graph.shards, destination),
        whole_block(m.graph.shards, staging),
    ) {
        (Ok(block), Ok(view)) => match pack_kernel(block.tensor_type) {
            Some(kernel) => Ok(
                MoveModel {
                    batch: BatchModel {
                        kernels: m.batch.kernels.push(
                            (
                                block.tile,
                                plain_run(
                                    provenance,
                                    BlockKernelModel::Tile(kernel),
                                    seq![view],
                                    seq![
                                        ViewModel { shard: destination, extents: block.extents },
                                    ],
                                ),
                            ),
                        ),
                        ..m.batch
                    },
                    ..m
                },
            ),
            None => match with_block_copies(
                target,
                m.graph.shards,
                view,
                ViewModel { shard: destination, extents: useful(block.extents) },
                block.tile,
                CopyOrder::Semantic,
                m.batch.after,
            ) {
                Err(e) => Err(e),
                Ok(after) => Ok(
                    MoveModel { batch: BatchModel { after, ..m.batch }, ..m },
                ),
            },
        },
        (Err(e), _) => Err(e),
        (_, Err(e)) => Err(e),
    }
}

/// Collects the copies into one block through scratch storage.
pub open spec fn collect_staged<M: BlockTarget>(
    target: &M,
    m: MoveModel,
    destination: LowShardId,
    block: ShardModel,
    mappings: Seq<Mapping>,
    copy_order: CopyOrder,
    exchange_order: CopyOrder,
    provenance: WorkProvenance,
) -> MoveStep {
    match push_block(m.graph, staging_block(block)) {
        Err(e) => Err(e),
        Ok((graph, staging)) => match clear_unwritten(
            target,
            graph,
            staging,
            mappings,
            CopyOrder::Semantic,
            provenance,
        ) {
            Err(e) => Err(e),
            Ok(graph) => match collect_mappings_from(
                target,
                MoveModel { graph, ..m },
                mappings,
                Some(staging),
                copy_order,
                exchange_order,
                0,
            ) {
                Err(e) => Err(e),
                Ok(next) => unload_staging(target, next, destination, staging, provenance),
            },
        },
    }
}

/// Collects the copies into one block, whose orders are settled.
pub open spec fn collect_settled<M: BlockTarget>(
    target: &M,
    m: MoveModel,
    destination: LowShardId,
    mappings: Seq<Mapping>,
    copy_order: CopyOrder,
    exchange_order: CopyOrder,
    packing: PackingPolicy,
    provenance: WorkProvenance,
) -> MoveStep {
    match block_of(m.graph.shards, destination) {
        Err(e) => Err(e),
        Ok(block) => match mapped_storage_from(
            m.graph.shards,
            destination,
            mappings,
            0,
            Seq::empty(),
        ) {
            Err(e) => Err(e),
            Ok(storage) => match target.spec_geometry(
                block.tensor_type.format,
                block.extents,
                storage,
                copy_order,
            ) {
                Err(e) => Err(ExpansionError::Storage(e)),
                Ok(geometry) => match is_staged(target, block, geometry, packing) {
                    Err(e) => Err(e),
                    Ok(staged) => match (if staged && pack_kernel(block.tensor_type) is Some {
                        Ok(m.graph)
                    } else {
                        clear_unwritten(
                            target,
                            m.graph,
                            destination,
                            mappings,
                            copy_order,
                            provenance,
                        )
                    }) {
                        Err(e) => Err(e),
                        Ok(graph) => if staged {
                            collect_staged(
                                target,
                                MoveModel { graph, ..m },
                                destination,
                                block,
                                mappings,
                                copy_order,
                                exchange_order,
                                provenance,
                            )
                        } else {
                            collect_mappings_from(
                                target,
                                MoveModel { graph, ..m },
                                mappings,
                                None,
                                copy_order,
                                exchange_order,
                                0,
                            )
                        },
                    },
                },
            },
        },
    }
}

/// Collects the copies into one block. Copies by coordinates go panel by panel,
/// or in pieces of panels, where both sides can.
pub open spec fn collect_destination<M: BlockTarget>(
    target: &M,
    m: MoveModel,
    destination: LowShardId,
    mappings: Seq<Mapping>,
    copy_order: CopyOrder,
    exchange_order: CopyOrder,
    packing: PackingPolicy,
    provenance: WorkProvenance,
) -> MoveStep {
    if copy_order == CopyOrder::Semantic && packing != PackingPolicy::Staged {
        match micro_panel_mappings(target, m.graph.shards, mappings) {
            Err(e) => Err(e),
            Ok(Some((pieces, order))) => collect_settled(
                target,
                m,
                destination,
                pieces,
                order,
                order,
                packing,
                provenance,
            ),
            Ok(None) => collect_settled(
                target,
                m,
                destination,
                mappings,
                copy_order,
                exchange_order,
                packing,
                provenance,
            ),
        }
    } else {
        collect_settled(
            target,
            m,
            destination,
            mappings,
            copy_order,
            exchange_order,
            packing,
            provenance,
        )
    }
}

/// The copies up to position `count`, filed by destination.
pub open spec fn filed_mappings(mappings: Seq<Mapping>, count: int) -> Seq<GroupModel<Mapping>>
    decreases count,
{
    if count <= 0 {
        Seq::empty()
    } else {
        groups_insert(
            filed_mappings(mappings, count - 1),
            seq![mappings[count - 1].1.shard.0],
            mappings[count - 1],
        )
    }
}

/// Collects the copies into the blocks from `g` on.
pub open spec fn collect_groups_from<M: BlockTarget>(
    target: &M,
    m: MoveModel,
    groups: Seq<GroupModel<Mapping>>,
    copy_order: CopyOrder,
    exchange_order: CopyOrder,
    packing: PackingPolicy,
    provenance: WorkProvenance,
    g: int,
) -> MoveStep
    decreases groups.len() - g,
{
    if g >= groups.len() {
        Ok(m)
    } else {
        match collect_destination(
            target,
            m,
            groups[g].items[0].1.shard,
            groups[g].items,
            copy_order,
            exchange_order,
            packing,
            provenance,
        ) {
            Err(e) => Err(e),
            Ok(next) => collect_groups_from(
                target,
                next,
                groups,
                copy_order,
                exchange_order,
                packing,
                provenance,
                g + 1,
            ),
        }
    }
}

/// Collects copies, destination by destination.
pub open spec fn prepare_mapped_views<M: BlockTarget>(
    target: &M,
    s: BuilderModel,
    batch: BatchModel,
    mappings: Seq<Mapping>,
    copy_order: CopyOrder,
    exchange_order: CopyOrder,
    packing: PackingPolicy,
    provenance: WorkProvenance,
) -> MoveStep {
    collect_groups_from(
        target,
        MoveModel { graph: s, batch, packed: Seq::empty() },
        filed_mappings(mappings, mappings.len() as int),
        copy_order,
        exchange_order,
        packing,
        provenance,
        0,
    )
}

// ---------------------------------------------------------------- carrying out

fn find_packed(packed: &Vec<PackedSource>, order: CopyOrder, source: &ShardView) -> (r: Option<
    ShardView,
>)
    ensures
        match r {
            Some(view) => packed_view(deep(packed@), order, source@, 0) == Some(view@),
            None => packed_view(deep(packed@), order, source@, 0) is None,
        },
{
    broadcast use group_deep;

    let ghost model = deep(packed@);
    let mut i: usize = 0;
    while i < packed.len()
        invariant
            i <= packed@.len(),
            packed_view(model, order, source@, 0) == packed_view(model, order, source@, i as int),
        decreases packed@.len() - i,
    {
        assert(model[i as int] == packed@[i as int]@);
        if packed[i].order == order && packed[i].source.same(source) {
            return Some(packed[i].view.duplicate());
        }
        i += 1;
    }
    None
}

fn redirect(mapping: &ViewMapping, staging: Option<LowShardId>) -> (r: ViewMapping)
    ensures
        r@ == redirected(mapping@, staging),
{
    match staging {
        None => (mapping.0.duplicate(), mapping.1.duplicate()),
        Some(id) => (
            ShardView {
                shard: mapping.0.shard,
                extents: without_padding(mapping.0.extents.as_slice()),
            },
            ShardView { shard: id, extents: without_padding(mapping.1.extents.as_slice()) },
        ),
    }
}

fn written_regions(mappings: &Vec<ViewMapping>) -> (r: Vec<Region>)
    ensures
        deep(r@) == written(deep(mappings@)),
{
    broadcast use group_deep;

    let mut regions: Vec<Region> = Vec::new();
    let mut i: usize = 0;
    while i < mappings.len()
        invariant
            i <= mappings@.len(),
            regions@.len() == i,
            forall|k: int|
                0 <= k < i ==> (#[trigger] regions@[k])@ == mappings@[k].1@.extents,
        decreases mappings@.len() - i,
    {
        regions.push(Region { extents: copy_all(mappings[i].1.extents.as_slice()) });
        i += 1;
    }
    assert(deep(regions@) =~= written(deep(mappings@)));
    regions
}

impl TileGraphBuilder {
    /// Brings a source into scratch storage, as whole words.
    fn pack_exchange_source<M: BlockTarget>(
        &mut self,
        target: &M,
        source: &ShardView,
        order: CopyOrder,
        packed: &mut Vec<PackedSource>,
        batch: &mut MaterializationBatch,
    ) -> (r: ExpansionResult<ShardView>)
        requires
            well_filed(old(batch)@),
        ensures
            well_filed(final(batch)@),
            ({
                let step = pack_source(
                    target,
                    MoveModel {
                        graph: old(self)@,
                        batch: old(batch)@,
                        packed: deep(old(packed)@),
                    },
                    source@,
                    order,
                );
                match r {
                    Ok(view) => step == Ok::<(MoveModel, ViewModel), ExpansionError>(
                        (
                            MoveModel {
                                graph: final(self)@,
                                batch: final(batch)@,
                                packed: deep(final(packed)@),
                            },
                            view@,
                        ),
                    ),
                    Err(e) => step == Err::<(MoveModel, ViewModel), ExpansionError>(e),
                }
            }),
    {
        broadcast use group_deep;

        match find_packed(packed, order, source) {
            Some(view) => {
                return Ok(view);
            },
            None => {},
        }
        let block = self.block(source.shard)?;
        let tile: u16 = block.tile;
        let precision = block.tensor_type.format.precision;
        let spans = self.spans(target, source, order)?;
        let bytes: u128 = sum_bytes(&spans);
        if bytes == 0 || bytes % 4 != 0 {
            return Err(ExpansionError::InvalidCopyPlan);
        }
        let elements: u128 = bytes / precision.bytes() as u128;
        if elements > 0xffff_ffff {
            return Err(ExpansionError::IdOverflow);
        }
        let elements: u32 = elements as u32;
        let mut shape: Vec<u32> = Vec::new();
        shape.push(elements);
        let mut extents: Vec<ShardExtent> = Vec::new();
        extents.push(
            ShardExtent { axis: 0, start: 0, logical_end: elements, physical_end: elements },
        );
        let view_extents = copy_all(extents.as_slice());
        let block = LowShard {
            id: LowShardId(0),
            tile,
            tensor_type: TensorType {
                shape: TensorShape(shape),
                format: TensorFormat {
                    precision,
                    layout: Layout::local(ElementOrder::RowMajor, MemoryClass::Ipu21Standard),
                },
            },
            extents,
            definition: ShardDefinition::Staging,
        };
        assert(shape@ =~= seq![elements]);
        assert(block@.extents =~= flat_block(tile, precision, elements).extents);
        assert(block@ == flat_block(tile, precision, elements));
        let id = self.push_shard(block)?;
        let view = ShardView { shard: id, extents: view_extents };
        self.append_span_copies(target, source, &view, tile, &mut batch.before, order)?;
        let entry = PackedSource { order, source: source.duplicate(), view: view.duplicate() };
        packed.push(entry);
        Ok(view)
    }

    /// A source as whole words.
    fn whole_words<M: BlockTarget>(
        &mut self,
        target: &M,
        source: ShardView,
        order: CopyOrder,
        packed: &mut Vec<PackedSource>,
        batch: &mut MaterializationBatch,
    ) -> (r: ExpansionResult<ShardView>)
        requires
            well_filed(old(batch)@),
        ensures
            well_filed(final(batch)@),
            ({
                let step = words_of(
                    target,
                    MoveModel {
                        graph: old(self)@,
                        batch: old(batch)@,
                        packed: deep(old(packed)@),
                    },
                    source@,
                    order,
                );
                match r {
                    Ok(view) => step == Ok::<(MoveModel, ViewModel), ExpansionError>(
                        (
                            MoveModel {
                                graph: final(self)@,
                                batch: final(batch)@,
                                packed: deep(final(packed)@),
                            },
                            view@,
                        ),
                    ),
                    Err(e) => step == Err::<(MoveModel, ViewModel), ExpansionError>(e),
                }
            }),
    {
        if order == CopyOrder::Panels {
            return Ok(source);
        }
        let spans = self.spans(target, &source, order)?;
        if are_word_aligned(&spans) {
            return Ok(source);
        }
        self.pack_exchange_source(target, &source, order, packed, batch)
    }

    /// Collects one copy.
    fn collect_mapping<M: BlockTarget>(
        &mut self,
        target: &M,
        mapping: &ViewMapping,
        staging: Option<LowShardId>,
        copy_order: CopyOrder,
        exchange_order: CopyOrder,
        packed: &mut Vec<PackedSource>,
        batch: &mut MaterializationBatch,
    ) -> (r: ExpansionResult<()>)
        requires
            well_filed(old(batch)@),
        ensures
            well_filed(final(batch)@),
            collected(
                r,
                final(self)@,
                final(batch)@,
                deep(final(packed)@),
                collect_mapping(
                    target,
                    MoveModel {
                        graph: old(self)@,
                        batch: old(batch)@,
                        packed: deep(old(packed)@),
                    },
                    mapping@,
                    staging,
                    copy_order,
                    exchange_order,
                ),
            ),
    {
        broadcast use group_deep;

        let (source, destination) = redirect(mapping, staging);
        let a = self.block(source.shard)?;
        let tile: u16 = a.tile;
        let standard = match a.tensor_type.format.layout.memory_class {
            MemoryClass::Ipu21Standard => true,
            _ => false,
        };
        let other: u16 = self.block(destination.shard)?.tile;
        if tile == other {
            if staging.is_none() && copy_order == exchange_order && standard {
                let loopback = Loopback { source, destination, order: copy_order };
                batch.loopbacks.push(loopback);
                return Ok(());
            }
            if staging.is_some() {
                self.append_span_copies(
                    target,
                    &source,
                    &destination,
                    other,
                    &mut batch.before,
                    copy_order,
                )
            } else {
                self.append_span_copies(
                    target,
                    &source,
                    &destination,
                    other,
                    &mut batch.after,
                    copy_order,
                )
            }
        } else {
            let words = self.whole_words(target, source, exchange_order, packed, batch)?;
            batch.add_transfer(exchange_order, words, destination);
            Ok(())
        }
    }

    /// Collects copies.
    fn collect_mappings<M: BlockTarget>(
        &mut self,
        target: &M,
        mappings: &Vec<ViewMapping>,
        staging: Option<LowShardId>,
        copy_order: CopyOrder,
        exchange_order: CopyOrder,
        packed: &mut Vec<PackedSource>,
        batch: &mut MaterializationBatch,
    ) -> (r: ExpansionResult<()>)
        requires
            well_filed(old(batch)@),
        ensures
            well_filed(final(batch)@),
            collected(
                r,
                final(self)@,
                final(batch)@,
                deep(final(packed)@),
                collect_mappings_from(
                    target,
                    MoveModel {
                        graph: old(self)@,
                        batch: old(batch)@,
                        packed: deep(old(packed)@),
                    },
                    deep(mappings@),
                    staging,
                    copy_order,
                    exchange_order,
                    0,
                ),
            ),
    {
        broadcast use group_deep;

        let ghost model = deep(mappings@);
        let ghost start = MoveModel { graph: self@, batch: batch@, packed: deep(packed@) };
        let mut i: usize = 0;
        while i < mappings.len()
            invariant
                i <= mappings@.len(),
                well_filed(batch@),
                collect_mappings_from(
                    target,
                    start,
                    model,
                    staging,
                    copy_order,
                    exchange_order,
                    0,
                ) == collect_mappings_from(
                    target,
                    MoveModel { graph: self@, batch: batch@, packed: deep(packed@) },
                    model,
                    staging,
                    copy_order,
                    exchange_order,
                    i as int,
                ),
            decreases mappings@.len() - i,
        {
            assert(model[i as int] == mappings@[i as int]@);
            self.collect_mapping(
                target,
                &mappings[i],
                staging,
                copy_order,
                exchange_order,
                packed,
                batch,
            )?;
            i += 1;
        }
        Ok(())
    }

    /// The storage of copies into one block.
    pub fn mapped_storage(&self, destination: LowShardId, mappings: &Vec<ViewMapping>) -> (r:
        ExpansionResult<Vec<CopyMapping>>)
        ensures
            crate::blocks::obtained_all(
                r,
                mapped_storage_from(self@.shards, destination, deep(mappings@), 0, Seq::empty()),
            ),
    {
        broadcast use group_deep;

        let ghost model = deep(mappings@);
        let mut storage: Vec<CopyMapping> = Vec::new();
        assert(deep(storage@) =~= Seq::<MappingModel>::empty());
        let mut i: usize = 0;
        while i < mappings.len()
            invariant
                i <= mappings@.len(),
                mapped_storage_from(self@.shards, destination, model, 0, Seq::empty())
                    == mapped_storage_from(
                    self@.shards,
                    destination,
                    model,
                    i as int,
                    deep(storage@),
                ),
            decreases mappings@.len() - i,
        {
            assert(model[i as int] == mappings@[i as int]@);
            let block = self.bind(&mappings[i].0)?;
            let _ = self.bind(&mappings[i].1)?;
            if mappings[i].1.shard != destination {
                return Err(ExpansionError::InvalidCopyPlan);
            }
            let entry = CopyMapping {
                format: block.tensor_type.format.duplicate(),
                allocation: copy_all(block.extents.as_slice()),
                source: copy_all(mappings[i].0.extents.as_slice()),
                destination: copy_all(mappings[i].1.extents.as_slice()),
            };
            storage.push(entry);
            i += 1;
        }
        Ok(storage)
    }

    /// Clears the bytes of a block that the copies do not write.
    fn clear_unwritten<M: BlockTarget>(
        &mut self,
        target: &M,
        shard: LowShardId,
        mappings: &Vec<ViewMapping>,
        order: CopyOrder,
        provenance: WorkProvenance,
    ) -> (r: ExpansionResult<()>)
        ensures
            built(
                r,
                final(self)@,
                clear_unwritten(target, old(self)@, shard, deep(mappings@), order, provenance),
            ),
    {
        let regions = written_regions(mappings);
        let block = self.block(shard)?;
        match target.uncovered_bytes(
            &block.tensor_type.format,
            block.extents.as_slice(),
            &regions,
            order,
        ) {
            Ok(ranges) => self.append_copy_clears(target, shard, &ranges, provenance),
            Err(e) => Err(ExpansionError::Storage(e)),
        }
    }

    /// Moves a block out of its scratch storage, after the exchange.
    fn unload_staging<M: BlockTarget>(
        &self,
        target: &M,
        destination: LowShardId,
        staging: LowShardId,
        provenance: WorkProvenance,
        batch: &mut MaterializationBatch,
    ) -> (r: ExpansionResult<()>)
        requires
            well_filed(old(batch)@),
        ensures
            well_filed(final(batch)@),
            forall|packed: Seq<PackedModel>|
                #![trigger unload_staging(
                    target,
                    MoveModel { graph: self@, batch: old(batch)@, packed },
                    destination,
                    staging,
                    provenance,
                )]
                collected(
                    r,
                    self@,
                    final(batch)@,
                    packed,
                    unload_staging(
                        target,
                        MoveModel { graph: self@, batch: old(batch)@, packed },
                        destination,
                        staging,
                        provenance,
                    ),
                ),
    {
        broadcast use group_deep;

        let block = self.block(destination)?;
        let view = self.full_view(staging)?;
        match packing_kernel(&block.tensor_type) {
            Some(kernel) => {
                let to = self.full_view(destination)?;
                let run = new_plain_run(
                    provenance,
                    BlockKernel::Tile(kernel),
                    one_view(view),
                    one_view(to),
                );
                let entry = (block.tile, run);
                batch.kernels.push(entry);
                Ok(())
            },
            None => {
                let to = ShardView {
                    shard: destination,
                    extents: without_padding(block.extents.as_slice()),
                };
                self.append_span_copies(
                    target,
                    &view,
                    &to,
                    block.tile,
                    &mut batch.after,
                    CopyOrder::Semantic,
                )
            },
        }
    }

    /// Collects the copies into one block through scratch storage.
    fn collect_staged<M: BlockTarget>(
        &mut self,
        target: &M,
        destination: LowShardId,
        mappings: &Vec<ViewMapping>,
        copy_order: CopyOrder,
        exchange_order: CopyOrder,
        provenance: WorkProvenance,
        packed: &mut Vec<PackedSource>,
        batch: &mut MaterializationBatch,
    ) -> (r: ExpansionResult<()>)
        requires
            well_filed(old(batch)@),
            destination.0 < old(self)@.shards.len(),
        ensures
            well_filed(final(batch)@),
            collected(
                r,
                final(self)@,
                final(batch)@,
                deep(final(packed)@),
                collect_staged(
                    target,
                    MoveModel {
                        graph: old(self)@,
                        batch: old(batch)@,
                        packed: deep(old(packed)@),
                    },
                    destination,
                    old(self)@.shards[destination.0 as int],
                    deep(mappings@),
                    copy_order,
                    exchange_order,
                    provenance,
                ),
            ),
    {
        broadcast use group_deep;

        let block = self.block(destination)?;
        let staging_shard = LowShard {
            id: LowShardId(0),
            tile: block.tile,
            tensor_type: in_row_major(&block.tensor_type),
            extents: without_padding(block.extents.as_slice()),
            definition: ShardDefinition::Staging,
        };
        assert(staging_shard@ == staging_block(block@));
        let staging = self.push_shard(staging_shard)?;
        self.clear_unwritten(target, staging, mappings, CopyOrder::Semantic, provenance)?;
        self.collect_mappings(
            target,
            mappings,
            Some(staging),
            copy_order,
            exchange_order,
            packed,
            batch,
        )?;
        let ghost next = MoveModel { graph: self@, batch: batch@, packed: deep(packed@) };
        let ghost step = unload_staging(target, next, destination, staging, provenance);
        self.unload_staging(target, destination, staging, provenance, batch)
    }

    /// Collects the copies into one block, whose orders are settled.
    fn collect_settled<M: BlockTarget>(
        &mut self,
        target: &M,
        destination: LowShardId,
        mappings: &Vec<ViewMapping>,
        copy_order: CopyOrder,
        exchange_order: CopyOrder,
        packing: PackingPolicy,
        provenance: WorkProvenance,
        packed: &mut Vec<PackedSource>,
        batch: &mut MaterializationBatch,
    ) -> (r: ExpansionResult<()>)
        requires
            well_filed(old(batch)@),
        ensures
            well_filed(final(batch)@),
            collected(
                r,
                final(self)@,
                final(batch)@,
                deep(final(packed)@),
                collect_settled(
                    target,
                    MoveModel {
                        graph: old(self)@,
                        batch: old(batch)@,
                        packed: deep(old(packed)@),
                    },
                    destination,
                    deep(mappings@),
                    copy_order,
                    exchange_order,
                    packing,
                    provenance,
                ),
            ),
    {
        let block = self.block(destination)?;
        let storage = self.mapped_storage(destination, mappings)?;
        let geometry: DestinationGeometry = match target.destination_geometry(
            &block.tensor_type.format,
            block.extents.as_slice(),
            &storage,
            copy_order,
        ) {
            Ok(geometry) => geometry,
            Err(e) => {
                return Err(ExpansionError::Storage(e));
            },
        };
        let staged = select_destination_packing(target, block, geometry, packing)?;
        if staged && packing_kernel(&block.tensor_type).is_some() {
        } else {
            self.clear_unwritten(target, destination, mappings, copy_order, provenance)?;
        }
        if staged {
            proof {
                lemma_clearing_keeps_blocks(
                    target,
                    old(self)@,
                    destination,
                    deep(mappings@),
                    copy_order,
                    provenance,
                );
            }
            self.collect_staged(
                target,
                destination,
                mappings,
                copy_order,
                exchange_order,
                provenance,
                packed,
                batch,
            )
        } else {
            self.collect_mappings(
                target,
                mappings,
                None,
                copy_order,
                exchange_order,
                packed,
                batch,
            )
        }
    }

    /// Collects the copies into one block.
    fn collect_destination<M: BlockTarget>(
        &mut self,
        target: &M,
        destination: LowShardId,
        mappings: &Vec<ViewMapping>,
        copy_order: CopyOrder,
        exchange_order: CopyOrder,
        packing: PackingPolicy,
        provenance: WorkProvenance,
        packed: &mut Vec<PackedSource>,
        batch: &mut MaterializationBatch,
    ) -> (r: ExpansionResult<()>)
        requires
            well_filed(old(batch)@),
        ensures
            well_filed(final(batch)@),
            collected(
                r,
                final(self)@,
                final(batch)@,
                deep(final(packed)@),
                collect_destination(
                    target,
                    MoveModel {
                        graph: old(self)@,
                        batch: old(batch)@,
                        packed: deep(old(packed)@),
                    },
                    destination,
                    deep(mappings@),
                    copy_order,
                    exchange_order,
                    packing,
                    provenance,
                ),
            ),
    {
        if copy_order == CopyOrder::Semantic && packing != PackingPolicy::Staged {
            match self.micro_panel_mappings(target, mappings)? {
                Some((pieces, order)) => {
                    return self.collect_settled(
                        target,
                        destination,
                        &pieces,
                        order,
                        order,
                        packing,
                        provenance,
                        packed,
                        batch,
                    );
                },
                None => {},
            }
        }
        self.collect_settled(
            target,
            destination,
            mappings,
            copy_order,
            exchange_order,
            packing,
            provenance,
            packed,
            batch,
        )
    }

    /// Collects copies, destination by destination.
    pub fn prepare_mapped_views<M: BlockTarget>(
        &mut self,
        target: &M,
        mappings: &Vec<ViewMapping>,
        copy_order: CopyOrder,
        exchange_order: CopyOrder,
        packing: PackingPolicy,
        provenance: WorkProvenance,
        batch: &mut MaterializationBatch,
    ) -> (r: ExpansionResult<()>)
        requires
            well_filed(old(batch)@),
        ensures
            well_filed(final(batch)@),
            ({
                let step = prepare_mapped_views(
                    target,
                    old(self)@,
                    old(batch)@,
                    deep(mappings@),
                    copy_order,
                    exchange_order,
                    packing,
                    provenance,
                );
                match r {
                    Ok(_) => step is Ok && step->Ok_0.graph == final(self)@ && step->Ok_0.batch
                        == final(batch)@,
                    Err(e) => step == Err::<MoveModel, ExpansionError>(e),
                }
            }),
    {
        broadcast use group_deep;

        let ghost model = deep(mappings@);
        let ghost start = MoveModel { graph: self@, batch: batch@, packed: Seq::empty() };
        let mut filed: Groups<ViewMapping> = Groups::new();
        let mut i: usize = 0;
        while i < mappings.len()
            invariant
                i <= mappings@.len(),
                filed@ == filed_mappings(model, i as int),
                forall|g: int| 0 <= g < filed@.len() ==> (#[trigger] filed@[g]).items.len() > 0,
            decreases mappings@.len() - i,
        {
            assert(model[i as int] == mappings@[i as int]@);
            let mapping = (mappings[i].0.duplicate(), mappings[i].1.duplicate());
            let key = key_of_id(mappings[i].1.shard);
            proof {
                lemma_insert_nonempty(filed@, key@, mapping@);
            }
            filed.insert(key, mapping);
            i += 1;
        }
        let ghost groups = filed@;
        let mut packed: Vec<PackedSource> = Vec::new();
        assert(deep(packed@) =~= Seq::<PackedModel>::empty());
        let mut g: usize = 0;
        while g < filed.entries.len()
            invariant
                g <= filed.entries@.len(),
                filed@ == groups,
                well_filed(batch@),
                collect_groups_from(
                    target,
                    start,
                    groups,
                    copy_order,
                    exchange_order,
                    packing,
                    provenance,
                    0,
                ) == collect_groups_from(
                    target,
                    MoveModel { graph: self@, batch: batch@, packed: deep(packed@) },
                    groups,
                    copy_order,
                    exchange_order,
                    packing,
                    provenance,
                    g as int,
                ),
            decreases filed.entries@.len() - g,
        {
            let items = &filed.entries[g].items;
            assert(groups[g as int] == filed.entries@[g as int]@);
            assert(groups[g as int].items.len() > 0);
            assert(groups[g as int].items[0] == items@[0]@);
            self.collect_destination(
                target,
                items[0].1.shard,
                items,
                copy_order,
                exchange_order,
                packing,
                provenance,
                &mut packed,
                batch,
            )?;
            g += 1;
        }
        Ok(())
    }
}

proof fn lemma_clear_from_keeps_blocks(
    s: BuilderModel,
    shard: LowShardId,
    ranges: Seq<ByteSpan>,
    limit: u32,
    gap: u64,
    padding_only: bool,
    provenance: WorkProvenance,
    i: int,
)
    ensures
        ({
            let step = crate::block_packing::clear_from(
                s,
                shard,
                ranges,
                limit,
                gap,
                padding_only,
                provenance,
                i,
            );
            step is Ok ==> step->Ok_0.shards == s.shards
        }),
    decreases ranges.len() - i,
{
    if i < ranges.len() {
        let (range, next) = crate::block_packing::merged_clear(
            ranges,
            limit,
            gap,
            i + 1,
            crate::block_packing::widened(ranges[i], limit),
        );
        if i < next <= ranges.len() {
            let step = crate::block_packing::append_zero_range(
                s,
                shard,
                range,
                padding_only,
                provenance,
            );
            if step is Ok {
                lemma_clear_from_keeps_blocks(
                    step->Ok_0,
                    shard,
                    ranges,
                    limit,
                    gap,
                    padding_only,
                    provenance,
                    next,
                );
            }
        }
    }
}

/// Clearing adds no block and changes none.
pub proof fn lemma_clearing_keeps_blocks<M: BlockTarget>(
    target: &M,
    s: BuilderModel,
    shard: LowShardId,
    mappings: Seq<Mapping>,
    order: CopyOrder,
    provenance: WorkProvenance,
)
    ensures
        ({
            let step = clear_unwritten(target, s, shard, mappings, order, provenance);
            step is Ok ==> step->Ok_0.shards == s.shards
        }),
{
    if let Ok(block) = block_of(s.shards, shard) {
        if let (Ok(ranges), Ok(padding), Ok(bytes)) = (
            target.spec_uncovered(
                block.tensor_type.format,
                block.extents,
                written(mappings),
                order,
            ),
            target.spec_uncovered(
                block.tensor_type.format,
                block.extents,
                seq![block.extents],
                CopyOrder::Semantic,
            ),
            target.spec_storage_bytes(block.tensor_type.format, block.extents),
        ) {
            lemma_clear_from_keeps_blocks(
                s,
                shard,
                ranges,
                bytes,
                crate::fragments::sat_mul(target.spec_costs().kernel_launch_cycles, 48),
                padding.len() > 0 && ranges == padding,
                provenance,
                0,
            );
        }
    }
}

} // verus!
