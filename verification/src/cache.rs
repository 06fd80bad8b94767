//! Copies between blocks, and how destinations are written, kept for blocks
//! that lie alike. What is kept never changes a result.

use crate::block_panels::{Mapping, ViewMapping};
use crate::blocks::{
    backing, block_of, block_spans, bound, lies_inside, pairing_error, pairing_failed, same_axis,
    same_elements, storage_spans, BlockTarget, CopyMapping, CopyOrder, DestinationGeometry,
    ExpansionError, ExpansionResult, MappingModel, StoredView, TileGraphBuilder,
};
use crate::copies::{coalesce_local_copies, coalesced, pair_spans, paired};
use crate::fragments::sat_add;
use crate::low::{
    LocalCopy, LocalCopyPattern, LowShard, LowShardId, ShardModel, ShardView, ViewModel,
};
use crate::materialize::mapped_storage_from;
use crate::memo::{
    fingerprint, holds_key, knows, knows_under, recalls, EntryModel, Memo, MemoModel,
};
use crate::model::{copy_all, deep, group_deep, Model};
use crate::order::{extents_key, key_of_extents};
use crate::tensor::{
    same_extents, AmpOrder, ByteSpan, ElementOrder, FormatModel, Precision, ShardExtent,
};
use vstd::prelude::*;

verus! {

/// Results that are kept of one kind.
pub const MAX_ENTRIES: usize = 32768;

// ---------------------------------------------------------------- copies

/// How the bytes of a copy lie.
#[derive(Clone, Copy, Debug, PartialEq, Eq, Structural)]
pub enum CopyPattern {
    Contiguous,
    Strided { rows: u32, row_bytes: u32, source_stride: u32, destination_stride: u32 },
}

impl Default for CopyPattern {
    fn default() -> (r: CopyPattern)
        ensures
            r == CopyPattern::Contiguous,
    {
        CopyPattern::Contiguous
    }
}

/// A copy of bytes between two buffers.
#[derive(Debug, PartialEq, Eq)]
pub struct CopyOperation<Buffer> {
    pub source: Buffer,
    pub source_offset: u32,
    pub destination: Buffer,
    pub destination_offset: u32,
    pub bytes: u32,
    pub pattern: CopyPattern,
}

/// The pattern of a copy.
pub open spec fn pattern_of(pattern: LocalCopyPattern) -> CopyPattern {
    match pattern {
        LocalCopyPattern::Contiguous => CopyPattern::Contiguous,
        LocalCopyPattern::Strided { rows, row_bytes, source_stride, destination_stride } =>
            CopyPattern::Strided { rows, row_bytes, source_stride, destination_stride },
    }
}

/// A copy without its blocks.
pub open spec fn unbound_copy(copy: LocalCopy) -> CopyOperation<()> {
    CopyOperation {
        source: (),
        source_offset: copy.source_offset,
        destination: (),
        destination_offset: copy.destination_offset,
        bytes: copy.bytes,
        pattern: pattern_of(copy.pattern),
    }
}

/// Copies without their blocks.
pub open spec fn unbound_copies(copies: Seq<LocalCopy>) -> Seq<CopyOperation<()>> {
    Seq::new(copies.len(), |i: int| unbound_copy(copies[i]))
}

/// The copies that carry bytes over. In one buffer they keep their order.
pub open spec fn span_copies(a: Seq<ByteSpan>, b: Seq<ByteSpan>, same_buffer: bool) -> Result<
    Seq<CopyOperation<()>>,
    ExpansionError,
> {
    match paired(LowShardId(0), LowShardId(1), a, b) {
        Err(e) => Err(pairing_error(e)),
        Ok(copies) => Ok(
            unbound_copies(
                if same_buffer {
                    copies
                } else {
                    coalesced(copies)
                },
            ),
        ),
    }
}

/// The copies that carry one view over to another.
pub open spec fn relative_copies<M: BlockTarget>(
    target: &M,
    shards: Seq<ShardModel>,
    source: ViewModel,
    destination: ViewModel,
    order: CopyOrder,
) -> Result<Seq<CopyOperation<()>>, ExpansionError> {
    match bound(shards, source) {
        Err(e) => Err(e),
        Ok(_) => match bound(shards, destination) {
            Err(e) => Err(e),
            Ok(_) => match block_spans(target, shards, source, order) {
                Err(e) => Err(e),
                Ok(a) => match block_spans(target, shards, destination, order) {
                    Err(e) => Err(e),
                    Ok(b) => span_copies(
                        a,
                        b,
                        backing(shards, source.shard) == backing(shards, destination.shard),
                    ),
                },
            },
        },
    }
}

/// One axis of a view, relative to its allocation.
#[derive(Clone, Copy, Debug, PartialEq, Eq, Structural)]
pub struct AxisKey {
    pub size: u32,
    pub start: u32,
    pub logical_end: u32,
    pub physical_end: u32,
}

/// How a view lies in its allocation.
#[derive(Debug)]
pub struct ViewKey {
    pub precision: Precision,
    pub order: ElementOrder,
    pub axes: Vec<AxisKey>,
}

/// Abstract value of a [`ViewKey`].
pub struct ViewKeyModel {
    pub precision: Precision,
    pub order: ElementOrder,
    pub axes: Seq<AxisKey>,
}

impl View for ViewKey {
    type V = ViewKeyModel;

    open spec fn view(&self) -> ViewKeyModel {
        ViewKeyModel { precision: self.precision, order: self.order, axes: self.axes@ }
    }
}

/// One axis of a view, relative to its allocation.
pub open spec fn axis_key(allocation: ShardExtent, view: ShardExtent) -> AxisKey {
    AxisKey {
        size: (allocation.physical_end - allocation.start) as u32,
        start: (view.start - allocation.start) as u32,
        logical_end: (view.logical_end - allocation.start) as u32,
        physical_end: (view.physical_end - allocation.start) as u32,
    }
}

/// How a view lies in its block.
pub open spec fn view_key_of(block: ShardModel, view: Seq<ShardExtent>) -> ViewKeyModel {
    ViewKeyModel {
        precision: block.tensor_type.format.precision,
        order: block.tensor_type.format.layout.order,
        axes: Seq::new(view.len(), |i: int| axis_key(block.extents[i], view[i])),
    }
}

/// What the copies between two views depend on.
#[derive(Debug)]
pub struct CopyKey {
    pub source: ViewKey,
    pub destination: ViewKey,
    pub order: CopyOrder,
    pub same_buffer: bool,
}

/// Abstract value of a [`CopyKey`].
pub struct CopyKeyModel {
    pub source: ViewKeyModel,
    pub destination: ViewKeyModel,
    pub order: CopyOrder,
    pub same_buffer: bool,
}

impl View for CopyKey {
    type V = CopyKeyModel;

    open spec fn view(&self) -> CopyKeyModel {
        CopyKeyModel {
            source: self.source@,
            destination: self.destination@,
            order: self.order,
            same_buffer: self.same_buffer,
        }
    }
}

/// What the copies between two views depend on.
pub open spec fn copy_key(
    shards: Seq<ShardModel>,
    source: ViewModel,
    destination: ViewModel,
    order: CopyOrder,
) -> CopyKeyModel {
    CopyKeyModel {
        source: view_key_of(shards[source.shard.0 as int], source.extents),
        destination: view_key_of(shards[destination.shard.0 as int], destination.extents),
        order,
        same_buffer: backing(shards, source.shard) == backing(shards, destination.shard),
    }
}

/// Copies that are kept.
#[derive(Debug)]
pub struct CopyList {
    pub copies: Vec<CopyOperation<()>>,
}

impl View for CopyList {
    type V = Seq<CopyOperation<()>>;

    open spec fn view(&self) -> Seq<CopyOperation<()>> {
        self.copies@
    }
}

proof fn lemma_views_alike<M: BlockTarget>(
    target: &M,
    a: ShardModel,
    view: Seq<ShardExtent>,
    b: ShardModel,
    other: Seq<ShardExtent>,
    order: CopyOrder,
)
    requires
        lies_inside(view, a.extents),
        lies_inside(other, b.extents),
        view_key_of(a, view) == view_key_of(b, other),
    ensures
        storage_spans(target, a.tensor_type.format, a.extents, view, order) == storage_spans(
            target,
            b.tensor_type.format,
            b.extents,
            other,
            order,
        ),
{
    let x = StoredView { format: a.tensor_type.format, allocation: a.extents, view };
    let y = StoredView { format: b.tensor_type.format, allocation: b.extents, view: other };
    assert(view_key_of(a, view).axes.len() == view.len());
    assert(view_key_of(b, other).axes.len() == other.len());
    assert forall|i: int| 0 <= i < x.view.len() implies same_axis(
        x.allocation[i],
        #[trigger] x.view[i],
        y.allocation[i],
        y.view[i],
    ) by {
        assert(view_key_of(a, view).axes[i] == view_key_of(b, other).axes[i]);
        assert(view_key_of(a, view).axes[i] == axis_key(a.extents[i], view[i]));
        assert(view_key_of(b, other).axes[i] == axis_key(b.extents[i], other[i]));
        assert(other[i] == other[i]);
    }
    target.spans_are_relative(x, y);
}

/// Copies between views depend on their key alone: blocks that lie alike are
/// copied alike, whatever tiles they are on and wherever they start.
pub proof fn lemma_copies_depend_on_key<M: BlockTarget>(
    target: &M,
    shards: Seq<ShardModel>,
    source: ViewModel,
    destination: ViewModel,
    other_shards: Seq<ShardModel>,
    other_source: ViewModel,
    other_destination: ViewModel,
    order: CopyOrder,
    other_order: CopyOrder,
)
    requires
        bound(shards, source) is Ok,
        bound(shards, destination) is Ok,
        bound(other_shards, other_source) is Ok,
        bound(other_shards, other_destination) is Ok,
        copy_key(shards, source, destination, order) == copy_key(
            other_shards,
            other_source,
            other_destination,
            other_order,
        ),
    ensures
        relative_copies(target, shards, source, destination, order) == relative_copies(
            target,
            other_shards,
            other_source,
            other_destination,
            other_order,
        ),
{
    lemma_views_alike(
        target,
        shards[source.shard.0 as int],
        source.extents,
        other_shards[other_source.shard.0 as int],
        other_source.extents,
        order,
    );
    lemma_views_alike(
        target,
        shards[destination.shard.0 as int],
        destination.extents,
        other_shards[other_destination.shard.0 as int],
        other_destination.extents,
        order,
    );
}

// ---------------------------------------------------------------- destinations

/// The elements of a block, without how its tensor is divided.
pub open spec fn format_key(format: FormatModel) -> (Precision, ElementOrder) {
    (format.precision, format.layout.order)
}

/// One copy of a destination.
#[derive(Debug)]
pub struct GeometrySource {
    pub precision: Precision,
    pub order: ElementOrder,
    pub allocation: Vec<ShardExtent>,
    pub source: Vec<ShardExtent>,
    pub destination: Vec<ShardExtent>,
}

/// Abstract value of a [`GeometrySource`].
pub struct GeometrySourceModel {
    pub format: (Precision, ElementOrder),
    pub allocation: Seq<ShardExtent>,
    pub source: Seq<ShardExtent>,
    pub destination: Seq<ShardExtent>,
}

impl View for GeometrySource {
    type V = GeometrySourceModel;

    open spec fn view(&self) -> GeometrySourceModel {
        GeometrySourceModel {
            format: (self.precision, self.order),
            allocation: self.allocation@,
            source: self.source@,
            destination: self.destination@,
        }
    }
}

/// What the writing of a destination depends on.
#[derive(Debug)]
pub struct GeometryKey {
    pub precision: Precision,
    pub element_order: ElementOrder,
    pub allocation: Vec<ShardExtent>,
    pub mappings: Vec<GeometrySource>,
    pub order: CopyOrder,
}

/// Abstract value of a [`GeometryKey`].
pub struct GeometryKeyModel {
    pub destination: (Precision, ElementOrder),
    pub allocation: Seq<ShardExtent>,
    pub mappings: Seq<GeometrySourceModel>,
    pub order: CopyOrder,
}

impl View for GeometryKey {
    type V = GeometryKeyModel;

    open spec fn view(&self) -> GeometryKeyModel {
        GeometryKeyModel {
            destination: (self.precision, self.element_order),
            allocation: self.allocation@,
            mappings: deep(self.mappings@),
            order: self.order,
        }
    }
}

/// One copy of a destination, as far as its writing depends on it.
pub open spec fn source_key(mapping: MappingModel) -> GeometrySourceModel {
    GeometrySourceModel {
        format: format_key(mapping.format),
        allocation: mapping.allocation,
        source: mapping.source,
        destination: mapping.destination,
    }
}

/// What the writing of a destination depends on.
pub open spec fn geometry_key(
    format: FormatModel,
    allocation: Seq<ShardExtent>,
    mappings: Seq<MappingModel>,
    order: CopyOrder,
) -> GeometryKeyModel {
    GeometryKeyModel {
        destination: format_key(format),
        allocation,
        mappings: Seq::new(mappings.len(), |i: int| source_key(mappings[i])),
        order,
    }
}

/// The writing of a destination depends on its key alone: not on tiles, nor on
/// how tensors are divided.
pub proof fn lemma_geometry_depends_on_key<M: BlockTarget>(
    target: &M,
    format: FormatModel,
    mappings: Seq<MappingModel>,
    other_format: FormatModel,
    other_mappings: Seq<MappingModel>,
    allocation: Seq<ShardExtent>,
    order: CopyOrder,
)
    requires
        geometry_key(format, allocation, mappings, order) == geometry_key(
            other_format,
            allocation,
            other_mappings,
            order,
        ),
    ensures
        target.spec_geometry(format, allocation, mappings, order) == target.spec_geometry(
            other_format,
            allocation,
            other_mappings,
            order,
        ),
{
    let a = geometry_key(format, allocation, mappings, order);
    let b = geometry_key(other_format, allocation, other_mappings, order);
    assert(a.mappings.len() == mappings.len() && b.mappings.len() == other_mappings.len());
    assert(a.mappings.len() == b.mappings.len());
    assert forall|i: int| 0 <= i < mappings.len() implies same_elements(
        (#[trigger] mappings[i]).format,
        other_mappings[i].format,
    ) && mappings[i].allocation == other_mappings[i].allocation && mappings[i].source
        == other_mappings[i].source && mappings[i].destination == other_mappings[i].destination by {
        assert(a.mappings[i] == b.mappings[i]);
        assert(a.mappings[i] == source_key(mappings[i]));
        assert(b.mappings[i] == source_key(other_mappings[i]));
    }
    target.geometry_ignores_ownership(
        format,
        other_format,
        allocation,
        mappings,
        other_mappings,
        order,
    );
}

/// How copies write a destination.
pub open spec fn mapped_geometry<M: BlockTarget>(
    target: &M,
    shards: Seq<ShardModel>,
    mappings: Seq<Mapping>,
    destination: LowShardId,
    order: CopyOrder,
) -> Result<DestinationGeometry, ExpansionError> {
    match block_of(shards, destination) {
        Err(e) => Err(e),
        Ok(block) => match mapped_storage_from(shards, destination, mappings, 0, Seq::empty()) {
            Err(e) => Err(e),
            Ok(storage) => match target.spec_geometry(
                block.tensor_type.format,
                block.extents,
                storage,
                order,
            ) {
                Err(e) => Err(ExpansionError::Storage(e)),
                Ok(geometry) => Ok(geometry),
            },
        },
    }
}

// ---------------------------------------------------------------- cache

/// What a device's copies and destinations were found to be.
#[derive(Debug)]
pub struct ExpansionCache {
    enabled: bool,
    copies: Memo<CopyKey, CopyList>,
    geometry: Memo<GeometryKey, DestinationGeometry>,
}

/// Abstract value of an [`ExpansionCache`].
pub struct CacheModel {
    pub enabled: bool,
    pub copies: MemoModel<CopyKeyModel, Seq<CopyOperation<()>>>,
    pub geometry: MemoModel<GeometryKeyModel, DestinationGeometry>,
}

impl View for ExpansionCache {
    type V = CacheModel;

    closed spec fn view(&self) -> CacheModel {
        CacheModel {
            enabled: self.enabled,
            copies: self.copies@,
            geometry: self.geometry@,
        }
    }
}

/// A kept list is what the copies of every pair of views with its key are.
pub open spec fn is_right_copy<M: BlockTarget>(
    target: &M,
    entry: EntryModel<CopyKeyModel, Seq<CopyOperation<()>>>,
) -> bool {
    forall|shards: Seq<ShardModel>, source: ViewModel, destination: ViewModel, order: CopyOrder|
        bound(shards, source) is Ok && bound(shards, destination) is Ok && #[trigger] copy_key(
            shards,
            source,
            destination,
            order,
        ) == entry.key ==> relative_copies(target, shards, source, destination, order) == Ok::<
            Seq<CopyOperation<()>>,
            ExpansionError,
        >(entry.value)
}

/// A kept geometry is that of every destination with its key.
pub open spec fn is_right_geometry<M: BlockTarget>(
    target: &M,
    entry: EntryModel<GeometryKeyModel, DestinationGeometry>,
) -> bool {
    forall|
        format: FormatModel,
        allocation: Seq<ShardExtent>,
        mappings: Seq<MappingModel>,
        order: CopyOrder,
    |
        #[trigger] geometry_key(format, allocation, mappings, order) == entry.key
            ==> target.spec_geometry(format, allocation, mappings, order) == Ok::<
            DestinationGeometry,
            crate::tensor::StorageError,
        >(entry.value)
}

/// All kept lists of copies are right for the device.
pub open spec fn copies_are_right<M: BlockTarget>(
    target: &M,
    entries: Seq<EntryModel<CopyKeyModel, Seq<CopyOperation<()>>>>,
) -> bool {
    forall|i: int| 0 <= i < entries.len() ==> is_right_copy(target, #[trigger] entries[i])
}

/// All kept geometries are right for the device.
pub open spec fn geometries_are_right<M: BlockTarget>(
    target: &M,
    entries: Seq<EntryModel<GeometryKeyModel, DestinationGeometry>>,
) -> bool {
    forall|i: int| 0 <= i < entries.len() ==> is_right_geometry(target, #[trigger] entries[i])
}

/// All that is kept is right for the device.
pub open spec fn is_right<M: BlockTarget>(target: &M, cache: CacheModel) -> bool {
    copies_are_right(target, cache.copies.entries) && geometries_are_right(
        target,
        cache.geometry.entries,
    )
}

impl Model for ViewKey {
    fn duplicate(&self) -> (r: Self) {
        ViewKey {
            precision: self.precision,
            order: self.order,
            axes: copy_all(self.axes.as_slice()),
        }
    }

    fn same(&self, other: &Self) -> (b: bool) {
        if self.precision != other.precision || self.order != other.order || self.axes.len()
            != other.axes.len() {
            assert(self@.axes.len() == other@.axes.len() || self@ != other@);
            return false;
        }
        let mut i: usize = 0;
        while i < self.axes.len()
            invariant
                i <= self.axes@.len(),
                self.axes@.len() == other.axes@.len(),
                forall|k: int| 0 <= k < i ==> #[trigger] self.axes@[k] == other.axes@[k],
            decreases self.axes@.len() - i,
        {
            if self.axes[i] != other.axes[i] {
                assert(self@.axes[i as int] != other@.axes[i as int]);
                return false;
            }
            i += 1;
        }
        assert(self@.axes =~= other@.axes);
        true
    }
}

impl Model for CopyKey {
    fn duplicate(&self) -> (r: Self) {
        CopyKey {
            source: self.source.duplicate(),
            destination: self.destination.duplicate(),
            order: self.order,
            same_buffer: self.same_buffer,
        }
    }

    fn same(&self, other: &Self) -> (b: bool) {
        self.order == other.order && self.same_buffer == other.same_buffer && self.source.same(
            &other.source,
        ) && self.destination.same(&other.destination)
    }
}

impl Model for CopyList {
    fn duplicate(&self) -> (r: Self) {
        CopyList { copies: copy_operations(&self.copies) }
    }

    fn same(&self, other: &Self) -> (b: bool) {
        if self.copies.len() != other.copies.len() {
            return false;
        }
        let mut i: usize = 0;
        while i < self.copies.len()
            invariant
                i <= self.copies@.len(),
                self.copies@.len() == other.copies@.len(),
                forall|k: int| 0 <= k < i ==> #[trigger] self.copies@[k] == other.copies@[k],
            decreases self.copies@.len() - i,
        {
            if !same_operation(&self.copies[i], &other.copies[i]) {
                assert(self@[i as int] != other@[i as int]);
                return false;
            }
            i += 1;
        }
        assert(self@ =~= other@);
        true
    }
}

fn copy_operations(copies: &Vec<CopyOperation<()>>) -> (r: Vec<CopyOperation<()>>)
    ensures
        r@ == copies@,
{
    let mut result: Vec<CopyOperation<()>> = Vec::new();
    let mut i: usize = 0;
    while i < copies.len()
        invariant
            i <= copies@.len(),
            result@ == copies@.take(i as int),
        decreases copies@.len() - i,
    {
        let copy = &copies[i];
        result.push(
            CopyOperation {
                source: copy.source,
                source_offset: copy.source_offset,
                destination: copy.destination,
                destination_offset: copy.destination_offset,
                bytes: copy.bytes,
                pattern: copy.pattern,
            },
        );
        i += 1;
        assert(result@ =~= copies@.take(i as int));
    }
    assert(copies@.take(copies@.len() as int) =~= copies@);
    result
}

proof fn lemma_unit(a: (), b: ())
    ensures
        a == b,
{
    let () = a;
    let () = b;
}

fn same_operation(a: &CopyOperation<()>, b: &CopyOperation<()>) -> (r: bool)
    ensures
        r == (*a == *b),
{
    proof {
        lemma_unit(a.source, b.source);
        lemma_unit(a.destination, b.destination);
    }
    a.source_offset == b.source_offset && a.destination_offset == b.destination_offset && a.bytes
        == b.bytes && a.pattern == b.pattern
}

impl Model for GeometrySource {
    fn duplicate(&self) -> (r: Self) {
        GeometrySource {
            precision: self.precision,
            order: self.order,
            allocation: copy_all(self.allocation.as_slice()),
            source: copy_all(self.source.as_slice()),
            destination: copy_all(self.destination.as_slice()),
        }
    }

    fn same(&self, other: &Self) -> (b: bool) {
        self.precision == other.precision && self.order == other.order && same_extents(
            self.allocation.as_slice(),
            other.allocation.as_slice(),
        ) && same_extents(self.source.as_slice(), other.source.as_slice()) && same_extents(
            self.destination.as_slice(),
            other.destination.as_slice(),
        )
    }
}

impl Model for GeometryKey {
    fn duplicate(&self) -> (r: Self) {
        GeometryKey {
            precision: self.precision,
            element_order: self.element_order,
            allocation: copy_all(self.allocation.as_slice()),
            mappings: crate::model::duplicate_all(&self.mappings),
            order: self.order,
        }
    }

    fn same(&self, other: &Self) -> (b: bool) {
        self.precision == other.precision && self.element_order == other.element_order
            && self.order == other.order && same_extents(
            self.allocation.as_slice(),
            other.allocation.as_slice(),
        ) && crate::model::same_all(&self.mappings, &other.mappings)
    }
}

impl View for DestinationGeometry {
    type V = DestinationGeometry;

    open spec fn view(&self) -> DestinationGeometry {
        *self
    }
}

impl Model for DestinationGeometry {
    fn duplicate(&self) -> (r: Self) {
        *self
    }

    fn same(&self, other: &Self) -> (b: bool) {
        self.semantic == other.semantic && self.destination_word_aligned
            == other.destination_word_aligned && self.same_element_order
            == other.same_element_order && self.padding == other.padding && self.bytes
            == other.bytes && match (self.fragments, other.fragments) {
            (Some(a), Some(b)) => a == b,
            (None, None) => true,
            _ => false,
        }
    }
}

// ---------------------------------------------------------------- fingerprints

/// A word for the size of elements.
pub open spec fn precision_word(precision: Precision) -> u32 {
    precision.spec_bytes() as u32
}

/// A word for the order of elements.
pub open spec fn order_word(order: ElementOrder) -> u32 {
    match order {
        ElementOrder::RowMajor => 0,
        ElementOrder::Amp(AmpOrder::Left) => 1,
        ElementOrder::Amp(_) => 2,
        ElementOrder::BlockMajor(_) => 3,
    }
}

/// A word for the order of bytes.
pub open spec fn traversal_word(order: CopyOrder) -> u32 {
    match order {
        CopyOrder::Semantic => 0,
        CopyOrder::Physical => 1,
        CopyOrder::Panels => 2,
    }
}

/// `done` followed by the words of the axes from `i` on.
pub open spec fn axes_words_from(axes: Seq<AxisKey>, i: int, done: Seq<u32>) -> Seq<u32>
    decreases axes.len() - i,
{
    if i >= axes.len() {
        done
    } else {
        axes_words_from(
            axes,
            i + 1,
            done.push(axes[i].size).push(axes[i].start).push(axes[i].logical_end).push(
                axes[i].physical_end,
            ),
        )
    }
}

/// The words of a view's key.
pub open spec fn view_words(key: ViewKeyModel, done: Seq<u32>) -> Seq<u32> {
    axes_words_from(
        key.axes,
        0,
        done.push(precision_word(key.precision)).push(order_word(key.order)),
    )
}

/// The words of the key of copies.
pub open spec fn copy_words(key: CopyKeyModel) -> Seq<u32> {
    view_words(
        key.destination,
        view_words(key.source, seq![traversal_word(key.order)]),
    )
}

/// `done` followed by the words of the copies from `i` on.
pub open spec fn mapping_words_from(mappings: Seq<GeometrySourceModel>, i: int, done: Seq<u32>) -> Seq<
    u32,
>
    decreases mappings.len() - i,
{
    if i >= mappings.len() {
        done
    } else {
        mapping_words_from(
            mappings,
            i + 1,
            done.push(precision_word(mappings[i].format.0)).push(order_word(mappings[i].format.1))
                + extents_key(mappings[i].allocation) + extents_key(mappings[i].source)
                + extents_key(mappings[i].destination),
        )
    }
}

/// The words of the key of a destination.
pub open spec fn geometry_words(key: GeometryKeyModel) -> Seq<u32> {
    mapping_words_from(
        key.mappings,
        0,
        seq![
            precision_word(key.destination.0),
            order_word(key.destination.1),
            traversal_word(key.order),
        ] + extents_key(key.allocation),
    )
}

fn word_of_order(order: ElementOrder) -> (r: u32)
    ensures
        r == order_word(order),
{
    match order {
        ElementOrder::RowMajor => 0,
        ElementOrder::Amp(AmpOrder::Left) => 1,
        ElementOrder::Amp(_) => 2,
        ElementOrder::BlockMajor(_) => 3,
    }
}

fn word_of_traversal(order: CopyOrder) -> (r: u32)
    ensures
        r == traversal_word(order),
{
    match order {
        CopyOrder::Semantic => 0,
        CopyOrder::Physical => 1,
        CopyOrder::Panels => 2,
    }
}

fn push_view_words(words: &mut Vec<u32>, key: &ViewKey)
    ensures
        final(words)@ == view_words(key@, old(words)@),
{
    words.push(key.precision.bytes() as u32);
    words.push(word_of_order(key.order));
    let ghost before = words@;
    let mut i: usize = 0;
    while i < key.axes.len()
        invariant
            i <= key.axes@.len(),
            axes_words_from(key.axes@, 0, before) == axes_words_from(
                key.axes@,
                i as int,
                words@,
            ),
        decreases key.axes@.len() - i,
    {
        words.push(key.axes[i].size);
        words.push(key.axes[i].start);
        words.push(key.axes[i].logical_end);
        words.push(key.axes[i].physical_end);
        i += 1;
    }
}

fn words_of_copy(key: &CopyKey) -> (r: Vec<u32>)
    ensures
        r@ == copy_words(key@),
{
    let mut words: Vec<u32> = Vec::new();
    words.push(word_of_traversal(key.order));
    assert(words@ =~= seq![traversal_word(key.order)]);
    push_view_words(&mut words, &key.source);
    push_view_words(&mut words, &key.destination);
    words
}

fn words_of_geometry(key: &GeometryKey) -> (r: Vec<u32>)
    ensures
        r@ == geometry_words(key@),
{
    broadcast use group_deep;

    let ghost model = key@.mappings;
    let mut words: Vec<u32> = Vec::new();
    words.push(key.precision.bytes() as u32);
    words.push(word_of_order(key.element_order));
    words.push(word_of_traversal(key.order));
    assert(words@ =~= seq![
        precision_word(key.precision),
        order_word(key.element_order),
        traversal_word(key.order),
    ]);
    words.append(&mut key_of_extents(key.allocation.as_slice()));
    let ghost before = words@;
    let mut i: usize = 0;
    while i < key.mappings.len()
        invariant
            i <= key.mappings@.len(),
            mapping_words_from(model, 0, before) == mapping_words_from(model, i as int, words@),
        decreases key.mappings@.len() - i,
    {
        assert(model[i as int] == key.mappings@[i as int]@);
        let mapping = &key.mappings[i];
        words.push(mapping.precision.bytes() as u32);
        words.push(word_of_order(mapping.order));
        words.append(&mut key_of_extents(mapping.allocation.as_slice()));
        words.append(&mut key_of_extents(mapping.source.as_slice()));
        words.append(&mut key_of_extents(mapping.destination.as_slice()));
        i += 1;
    }
    words
}

// ---------------------------------------------------------------- carrying out

fn key_of_stored_view(block: &LowShard, view: &ShardView) -> (r: ViewKey)
    requires
        lies_inside(view@.extents, block@.extents),
    ensures
        r@ == view_key_of(block@, view@.extents),
{
    let mut axes: Vec<AxisKey> = Vec::new();
    let mut i: usize = 0;
    while i < view.extents.len()
        invariant
            i <= view.extents@.len(),
            axes@.len() == i,
            forall|k: int|
                0 <= k < i ==> (#[trigger] axes@[k]) == axis_key(
                    block.extents@[k],
                    view.extents@[k],
                ),
        decreases view.extents@.len() - i,
    {
        let a: ShardExtent = block.extents[i];
        let v: ShardExtent = view.extents[i];
        assert(view@.extents[i as int] == v);
        axes.push(
            AxisKey {
                size: a.physical_end - a.start,
                start: v.start - a.start,
                logical_end: v.logical_end - a.start,
                physical_end: v.physical_end - a.start,
            },
        );
        i += 1;
    }
    let key = ViewKey {
        precision: block.tensor_type.format.precision,
        order: block.tensor_type.format.layout.order,
        axes,
    };
    assert(key@.axes =~= view_key_of(block@, view@.extents).axes);
    key
}

fn unbind(copies: &Vec<LocalCopy>) -> (r: Vec<CopyOperation<()>>)
    ensures
        r@ == unbound_copies(copies@),
{
    let mut unbound: Vec<CopyOperation<()>> = Vec::new();
    let mut i: usize = 0;
    while i < copies.len()
        invariant
            i <= copies@.len(),
            unbound@.len() == i,
            forall|k: int| 0 <= k < i ==> (#[trigger] unbound@[k]) == unbound_copy(copies@[k]),
        decreases copies@.len() - i,
    {
        let copy: LocalCopy = copies[i];
        let pattern = match copy.pattern {
            LocalCopyPattern::Contiguous => CopyPattern::Contiguous,
            LocalCopyPattern::Strided { rows, row_bytes, source_stride, destination_stride } =>
                CopyPattern::Strided { rows, row_bytes, source_stride, destination_stride },
        };
        unbound.push(
            CopyOperation {
                source: (),
                source_offset: copy.source_offset,
                destination: (),
                destination_offset: copy.destination_offset,
                bytes: copy.bytes,
                pattern,
            },
        );
        i += 1;
    }
    assert(unbound@ =~= unbound_copies(copies@));
    unbound
}

fn key_of_geometry(block: &LowShard, storage: &Vec<CopyMapping>, order: CopyOrder) -> (r: GeometryKey)
    ensures
        r@ == geometry_key(block@.tensor_type.format, block@.extents, deep(storage@), order),
{
    broadcast use group_deep;

    let mut mappings: Vec<GeometrySource> = Vec::new();
    let mut i: usize = 0;
    while i < storage.len()
        invariant
            i <= storage@.len(),
            mappings@.len() == i,
            forall|k: int|
                0 <= k < i ==> (#[trigger] mappings@[k])@ == source_key(storage@[k]@),
        decreases storage@.len() - i,
    {
        let mapping = &storage[i];
        mappings.push(
            GeometrySource {
                precision: mapping.format.precision,
                order: mapping.format.layout.order,
                allocation: copy_all(mapping.allocation.as_slice()),
                source: copy_all(mapping.source.as_slice()),
                destination: copy_all(mapping.destination.as_slice()),
            },
        );
        i += 1;
    }
    let key = GeometryKey {
        precision: block.tensor_type.format.precision,
        element_order: block.tensor_type.format.layout.order,
        allocation: copy_all(block.extents.as_slice()),
        mappings,
        order,
    };
    assert(key@.mappings =~= geometry_key(
        block@.tensor_type.format,
        block@.extents,
        deep(storage@),
        order,
    ).mappings);
    key
}

/// The views are whole blocks whose bytes are copied as they lie.
pub open spec fn is_whole_copy(
    source: ShardModel,
    source_view: ViewModel,
    destination: ShardModel,
    destination_view: ViewModel,
    order: CopyOrder,
) -> bool {
    &&& source_view.extents == source.extents
    &&& destination_view.extents == destination.extents
    &&& order == CopyOrder::Physical || (order == CopyOrder::Semantic
        && source.tensor_type.format.layout.order == ElementOrder::RowMajor
        && destination.tensor_type.format.layout.order == ElementOrder::RowMajor)
}

/// A search found what was kept for the key.
pub open spec fn hit<K, V>(
    before: MemoModel<K, V>,
    after: MemoModel<K, V>,
    key: K,
    value: V,
) -> bool {
    &&& recalls(before, key, value)
    &&& after.hits == sat_add(before.hits, 1)
    &&& after.misses == before.misses
    &&& after.entries == before.entries
}

/// A search found nothing.
pub open spec fn missed<K, V>(before: MemoModel<K, V>, after: MemoModel<K, V>) -> bool {
    after.misses == sat_add(before.misses, 1) && after.hits == before.hits
}

/// What is kept for a key under a fingerprint.
pub open spec fn entry_of<K, V>(fingerprint: u64, key: K, value: V) -> EntryModel<K, V> {
    EntryModel { fingerprint, key, value }
}

/// A search under a fingerprint was counted. What is kept under the fingerprint
/// is found. What is not found is kept under the fingerprint while there is
/// room. Only for a key that is kept under other fingerprints alone is it open
/// whether it is found, and whether it is kept once more if not.
pub open spec fn searched_under<K, V>(
    before: MemoModel<K, V>,
    after: MemoModel<K, V>,
    fingerprint: u64,
    key: K,
    value: V,
) -> bool {
    ||| hit(before, after, key, value)
    ||| !knows_under(before, fingerprint, key) && missed(before, after)
        && if before.entries.len() >= MAX_ENTRIES {
        after.entries == before.entries
    } else if knows(before, key) {
        after.entries == before.entries || after.entries == before.entries.push(
            entry_of(fingerprint, key, value),
        )
    } else {
        after.entries == before.entries.push(entry_of(fingerprint, key, value))
    }
}

/// A search under a fingerprint found nothing, and nothing could be computed.
pub open spec fn failed_under<K, V>(
    before: MemoModel<K, V>,
    after: MemoModel<K, V>,
    fingerprint: u64,
    key: K,
) -> bool {
    &&& !knows_under(before, fingerprint, key)
    &&& missed(before, after)
    &&& after.entries == before.entries
}

/// A search under a new key is a miss, and its result is kept while there is
/// room.
pub proof fn lemma_new_keys_are_missed<K, V>(
    before: MemoModel<K, V>,
    after: MemoModel<K, V>,
    fingerprint: u64,
    key: K,
    value: V,
)
    requires
        !knows(before, key),
        searched_under(before, after, fingerprint, key, value),
    ensures
        missed(before, after),
        before.entries.len() < MAX_ENTRIES ==> after.entries == before.entries.push(
            entry_of(fingerprint, key, value),
        ) && recalls(after, key, value),
        before.entries.len() >= MAX_ENTRIES ==> after.entries == before.entries,
{
    if before.entries.len() < MAX_ENTRIES {
        assert(holds_key(after.entries, before.entries.len() as int, key));
    }
}

/// The first search is a miss, and its result is all that is kept.
pub proof fn lemma_first_search_is_a_miss<K, V>(
    before: MemoModel<K, V>,
    after: MemoModel<K, V>,
    fingerprint: u64,
    key: K,
    value: V,
)
    requires
        before.entries.len() == 0,
        searched_under(before, after, fingerprint, key, value),
    ensures
        missed(before, after),
        after.entries == seq![entry_of(fingerprint, key, value)],
        recalls(after, key, value),
{
    lemma_new_keys_are_missed(before, after, fingerprint, key, value);
    assert(after.entries =~= seq![entry_of(fingerprint, key, value)]);
}

/// What is kept under a fingerprint is found under it.
pub proof fn lemma_kept_results_are_found<K, V>(
    before: MemoModel<K, V>,
    after: MemoModel<K, V>,
    fingerprint: u64,
    key: K,
    value: V,
)
    requires
        knows_under(before, fingerprint, key),
        searched_under(before, after, fingerprint, key, value),
    ensures
        hit(before, after, key, value),
{
}

/// Of two searches for a key under one fingerprint the second is a hit, if there
/// was room, and if the key was not kept under other fingerprints alone. Where
/// the key is new, the second search gives back what the first one computed.
pub proof fn lemma_second_search_is_a_hit<K, V>(
    before: MemoModel<K, V>,
    between: MemoModel<K, V>,
    after: MemoModel<K, V>,
    fingerprint: u64,
    key: K,
    first: V,
    second: V,
)
    requires
        before.entries.len() < MAX_ENTRIES,
        knows(before, key) ==> knows_under(before, fingerprint, key),
        searched_under(before, between, fingerprint, key, first),
        searched_under(between, after, fingerprint, key, second),
    ensures
        hit(between, after, key, second),
        !knows(before, key) ==> second == first,
{
    if knows(before, key) {
        lemma_kept_results_are_found(before, between, fingerprint, key, first);
        let at = choose|at: int| #[trigger]
            holds_key(before.entries, at, key) && before.entries[at].fingerprint == fingerprint;
        assert(holds_key(between.entries, at, key));
    } else {
        lemma_new_keys_are_missed(before, between, fingerprint, key, first);
        let last = before.entries.len() as int;
        assert(holds_key(between.entries, last, key));
        assert forall|at: int| #[trigger] holds_key(between.entries, at, key) implies at
            == last by {
            if at < last {
                assert(holds_key(before.entries, at, key));
            }
        }
    }
    lemma_kept_results_are_found(between, after, fingerprint, key, second);
}

/// The cache is searched for the copies of one view to another.
pub open spec fn searches_copies(
    enabled: bool,
    shards: Seq<ShardModel>,
    source: ViewModel,
    destination: ViewModel,
    order: CopyOrder,
) -> bool {
    &&& enabled
    &&& bound(shards, source) is Ok
    &&& bound(shards, destination) is Ok
    &&& !is_whole_copy(
        shards[source.shard.0 as int],
        source,
        shards[destination.shard.0 as int],
        destination,
        order,
    )
}

/// The cache is searched for how copies write a destination.
pub open spec fn searches_geometry(
    enabled: bool,
    shards: Seq<ShardModel>,
    mappings: Seq<Mapping>,
    destination: LowShardId,
    order: CopyOrder,
) -> bool {
    &&& enabled
    &&& block_of(shards, destination) is Ok
    &&& mapped_storage_from(shards, destination, mappings, 0, Seq::empty()) is Ok
    &&& !fills_block(shards, mappings, destination, order)
}

/// The key of a destination and of the copies into it.
pub open spec fn mapped_key(
    shards: Seq<ShardModel>,
    mappings: Seq<Mapping>,
    destination: LowShardId,
    order: CopyOrder,
) -> GeometryKeyModel {
    let block = shards[destination.0 as int];
    geometry_key(
        block.tensor_type.format,
        block.extents,
        mapped_storage_from(shards, destination, mappings, 0, Seq::empty())->Ok_0,
        order,
    )
}

impl ExpansionCache {
    /// All that is kept can be found.
    pub closed spec fn wf(&self) -> bool {
        self.copies.wf() && self.geometry.wf()
    }

    /// Nothing kept yet.
    pub fn new() -> (r: Self)
        ensures
            r.wf(),
            r@.enabled,
            r@.copies.entries.len() == 0,
            r@.geometry.entries.len() == 0,
            r@.copies.hits == 0,
            r@.copies.misses == 0,
            r@.geometry.hits == 0,
            r@.geometry.misses == 0,
    {
        ExpansionCache { enabled: true, copies: Memo::new(), geometry: Memo::new() }
    }

    /// Keeps nothing.
    pub fn disabled() -> (r: Self)
        ensures
            r.wf(),
            !r@.enabled,
            r@.copies.entries.len() == 0,
            r@.geometry.entries.len() == 0,
            r@.copies.hits == 0,
            r@.copies.misses == 0,
            r@.geometry.hits == 0,
            r@.geometry.misses == 0,
    {
        ExpansionCache { enabled: false, copies: Memo::new(), geometry: Memo::new() }
    }

    /// Lists of copies that are kept, searches that found one, and searches
    /// that did not.
    pub fn stats(&self) -> (r: (usize, u64, u64))
        ensures
            r.0 == self@.copies.entries.len(),
            r.1 == self@.copies.hits,
            r.2 == self@.copies.misses,
    {
        self.copies.stats()
    }

    /// Destinations that are kept, searches that found one, and searches that
    /// did not.
    pub fn geometry_stats(&self) -> (r: (usize, u64, u64))
        ensures
            r.0 == self@.geometry.entries.len(),
            r.1 == self@.geometry.hits,
            r.2 == self@.geometry.misses,
    {
        self.geometry.stats()
    }

    /// The key of the copies of one view to another, if the cache is searched
    /// for them.
    fn key_of_copy(
        &self,
        graph: &TileGraphBuilder,
        source: &ShardView,
        destination: &ShardView,
        order: CopyOrder,
    ) -> (r: ExpansionResult<Option<CopyKey>>)
        ensures
            match r {
                Ok(found) => {
                    &&& bound(graph@.shards, source@) is Ok
                    &&& bound(graph@.shards, destination@) is Ok
                    &&& found is Some == searches_copies(
                        self@.enabled,
                        graph@.shards,
                        source@,
                        destination@,
                        order,
                    )
                    &&& found matches Some(key) ==> key@ == copy_key(
                        graph@.shards,
                        source@,
                        destination@,
                        order,
                    )
                },
                Err(e) => match bound(graph@.shards, source@) {
                    Ok(_) => bound(graph@.shards, destination@) == Err::<
                        ShardModel,
                        ExpansionError,
                    >(e),
                    Err(first) => e == first,
                },
            },
    {
        let a = graph.bind(source)?;
        let b = graph.bind(destination)?;
        let linear = match (a.tensor_type.format.layout.order, b.tensor_type.format.layout.order) {
            (ElementOrder::RowMajor, ElementOrder::RowMajor) => true,
            _ => false,
        };
        let whole = same_extents(source.extents.as_slice(), a.extents.as_slice()) && same_extents(
            destination.extents.as_slice(),
            b.extents.as_slice(),
        ) && (order == CopyOrder::Physical || (order == CopyOrder::Semantic && linear));
        if !self.enabled || whole {
            return Ok(None);
        }
        let same_buffer = graph.backing(source.shard) == graph.backing(destination.shard);
        let key = CopyKey {
            source: key_of_stored_view(a, source),
            destination: key_of_stored_view(b, destination),
            order,
            same_buffer,
        };
        assert(key@ == copy_key(graph@.shards, source@, destination@, order));
        Ok(Some(key))
    }

    /// The copies that carry one view over to another. Whether they are kept
    /// makes no difference to them.
    pub fn copy<M: BlockTarget>(
        &mut self,
        target: &M,
        graph: &TileGraphBuilder,
        source: &ShardView,
        destination: &ShardView,
        order: CopyOrder,
    ) -> (r: ExpansionResult<CopyList>)
        requires
            old(self).wf(),
            is_right(target, old(self)@),
        ensures
            final(self).wf(),
            is_right(target, final(self)@),
            final(self)@.enabled == old(self)@.enabled,
            final(self)@.geometry == old(self)@.geometry,
            crate::blocks::obtained(
                r,
                relative_copies(target, graph@.shards, source@, destination@, order),
            ),
            if searches_copies(
                old(self)@.enabled,
                graph@.shards,
                source@,
                destination@,
                order,
            ) {
                match r {
                    Ok(list) => exists|fingerprint: u64| #[trigger]
                        searched_under(
                            old(self)@.copies,
                            final(self)@.copies,
                            fingerprint,
                            copy_key(graph@.shards, source@, destination@, order),
                            list@,
                        ),
                    Err(_) => exists|fingerprint: u64| #[trigger]
                        failed_under(
                            old(self)@.copies,
                            final(self)@.copies,
                            fingerprint,
                            copy_key(graph@.shards, source@, destination@, order),
                        ),
                }
            } else {
                final(self)@.copies == old(self)@.copies
            },
    {
        let hash: u64 = match self.key_of_copy(graph, source, destination, order)? {
            Some(key) => fingerprint(&words_of_copy(&key)),
            None => 0,
        };
        self.copy_under(hash, target, graph, source, destination, order)
    }

    /// The copies that carry one view over to another, kept under the given
    /// fingerprint and searched for under it.
    pub fn copy_under<M: BlockTarget>(
        &mut self,
        fingerprint: u64,
        target: &M,
        graph: &TileGraphBuilder,
        source: &ShardView,
        destination: &ShardView,
        order: CopyOrder,
    ) -> (r: ExpansionResult<CopyList>)
        requires
            old(self).wf(),
            is_right(target, old(self)@),
        ensures
            final(self).wf(),
            is_right(target, final(self)@),
            final(self)@.enabled == old(self)@.enabled,
            final(self)@.geometry == old(self)@.geometry,
            crate::blocks::obtained(
                r,
                relative_copies(target, graph@.shards, source@, destination@, order),
            ),
            if searches_copies(
                old(self)@.enabled,
                graph@.shards,
                source@,
                destination@,
                order,
            ) {
                match r {
                    Ok(list) => searched_under(
                        old(self)@.copies,
                        final(self)@.copies,
                        fingerprint,
                        copy_key(graph@.shards, source@, destination@, order),
                        list@,
                    ),
                    Err(_) => failed_under(
                        old(self)@.copies,
                        final(self)@.copies,
                        fingerprint,
                        copy_key(graph@.shards, source@, destination@, order),
                    ),
                }
            } else {
                final(self)@.copies == old(self)@.copies
            },
    {
        broadcast use group_deep;

        let found = self.key_of_copy(graph, source, destination, order)?;
        let same_buffer = graph.backing(source.shard) == graph.backing(destination.shard);
        let key = match found {
            Some(key) => key,
            None => return generate_copies(target, graph, source, destination, order, same_buffer),
        };
        let ghost expected = copy_key(graph@.shards, source@, destination@, order);
        let ghost before = self@.copies;
        match self.copies.get(fingerprint, &key) {
            Some(list) => {
                proof {
                    let at = choose|at: int| #[trigger]
                        holds_key(before.entries, at, expected) && before.entries[at].value
                            == list@;
                    assert(is_right_copy(target, before.entries[at]));
                    assert(copy_key(graph@.shards, source@, destination@, order) == expected);
                }
                assert(self@.copies.entries == before.entries);
                return Ok(list);
            },
            None => {},
        }
        assert(self@.copies.entries == before.entries);
        let list = generate_copies(target, graph, source, destination, order, same_buffer)?;
        let kept = list.duplicate();
        let ghost entry = entry_of(fingerprint, expected, list@);
        proof {
            assert forall|
                shards: Seq<ShardModel>,
                other_source: ViewModel,
                other_destination: ViewModel,
                other_order: CopyOrder,
            |
                bound(shards, other_source) is Ok && bound(shards, other_destination) is Ok
                    && #[trigger] copy_key(
                    shards,
                    other_source,
                    other_destination,
                    other_order,
                ) == entry.key implies relative_copies(
                target,
                shards,
                other_source,
                other_destination,
                other_order,
            ) == Ok::<Seq<CopyOperation<()>>, ExpansionError>(entry.value) by {
                lemma_copies_depend_on_key(
                    target,
                    shards,
                    other_source,
                    other_destination,
                    graph@.shards,
                    source@,
                    destination@,
                    other_order,
                    order,
                );
            }
            assert(is_right_copy(target, entry));
        }
        self.copies.insert(fingerprint, key, kept, MAX_ENTRIES);
        proof {
            assert(copies_are_right(target, before.entries.push(entry)));
        }
        Ok(list)
    }

    /// The key of how copies write a destination, if the cache is searched for
    /// it.
    fn key_of_mapped(
        &self,
        block: &LowShard,
        storage: &Vec<CopyMapping>,
        mappings: &Vec<ViewMapping>,
        order: CopyOrder,
    ) -> (r: Option<GeometryKey>)
        ensures
            r is Some == (self@.enabled && !(order != CopyOrder::Semantic && mappings@.len() == 1
                && deep(mappings@)[0].1.extents == block@.extents)),
            r matches Some(key) ==> key@ == geometry_key(
                block@.tensor_type.format,
                block@.extents,
                deep(storage@),
                order,
            ),
    {
        broadcast use group_deep;

        let fills = order != CopyOrder::Semantic && mappings.len() == 1 && same_extents(
            mappings[0].1.extents.as_slice(),
            block.extents.as_slice(),
        );
        if !self.enabled || fills {
            None
        } else {
            Some(key_of_geometry(block, storage, order))
        }
    }

    /// How copies write a destination. Whether it is kept makes no difference
    /// to it.
    pub fn geometry<M: BlockTarget>(
        &mut self,
        target: &M,
        graph: &TileGraphBuilder,
        mappings: &Vec<ViewMapping>,
        destination: LowShardId,
        order: CopyOrder,
    ) -> (r: ExpansionResult<DestinationGeometry>)
        requires
            old(self).wf(),
            is_right(target, old(self)@),
        ensures
            final(self).wf(),
            is_right(target, final(self)@),
            final(self)@.enabled == old(self)@.enabled,
            final(self)@.copies == old(self)@.copies,
            r == mapped_geometry(target, graph@.shards, deep(mappings@), destination, order),
            if searches_geometry(
                old(self)@.enabled,
                graph@.shards,
                deep(mappings@),
                destination,
                order,
            ) {
                match r {
                    Ok(geometry) => exists|fingerprint: u64| #[trigger]
                        searched_under(
                            old(self)@.geometry,
                            final(self)@.geometry,
                            fingerprint,
                            mapped_key(graph@.shards, deep(mappings@), destination, order),
                            geometry,
                        ),
                    Err(_) => exists|fingerprint: u64| #[trigger]
                        failed_under(
                            old(self)@.geometry,
                            final(self)@.geometry,
                            fingerprint,
                            mapped_key(graph@.shards, deep(mappings@), destination, order),
                        ),
                }
            } else {
                final(self)@.geometry == old(self)@.geometry
            },
    {
        let block = graph.block(destination)?;
        let storage = graph.mapped_storage(destination, mappings)?;
        let hash: u64 = match self.key_of_mapped(block, &storage, mappings, order) {
            Some(key) => fingerprint(&words_of_geometry(&key)),
            None => 0,
        };
        self.geometry_under(hash, target, graph, mappings, destination, order)
    }

    /// How copies write a destination, kept under the given fingerprint and
    /// searched for under it.
    pub fn geometry_under<M: BlockTarget>(
        &mut self,
        fingerprint: u64,
        target: &M,
        graph: &TileGraphBuilder,
        mappings: &Vec<ViewMapping>,
        destination: LowShardId,
        order: CopyOrder,
    ) -> (r: ExpansionResult<DestinationGeometry>)
        requires
            old(self).wf(),
            is_right(target, old(self)@),
        ensures
            final(self).wf(),
            is_right(target, final(self)@),
            final(self)@.enabled == old(self)@.enabled,
            final(self)@.copies == old(self)@.copies,
            r == mapped_geometry(target, graph@.shards, deep(mappings@), destination, order),
            if searches_geometry(
                old(self)@.enabled,
                graph@.shards,
                deep(mappings@),
                destination,
                order,
            ) {
                match r {
                    Ok(geometry) => searched_under(
                        old(self)@.geometry,
                        final(self)@.geometry,
                        fingerprint,
                        mapped_key(graph@.shards, deep(mappings@), destination, order),
                        geometry,
                    ),
                    Err(_) => failed_under(
                        old(self)@.geometry,
                        final(self)@.geometry,
                        fingerprint,
                        mapped_key(graph@.shards, deep(mappings@), destination, order),
                    ),
                }
            } else {
                final(self)@.geometry == old(self)@.geometry
            },
    {
        broadcast use group_deep;

        let block = graph.block(destination)?;
        let storage = graph.mapped_storage(destination, mappings)?;
        let key = match self.key_of_mapped(block, &storage, mappings, order) {
            Some(key) => key,
            None => return generate_geometry(target, block, &storage, order),
        };
        let ghost before = self@.geometry;
        let ghost model = deep(storage@);
        let ghost format = block@.tensor_type.format;
        let ghost expected = geometry_key(format, block@.extents, model, order);
        match self.geometry.get(fingerprint, &key) {
            Some(geometry) => {
                proof {
                    let at = choose|at: int| #[trigger]
                        holds_key(before.entries, at, expected) && before.entries[at].value
                            == geometry;
                    assert(is_right_geometry(target, before.entries[at]));
                    assert(geometry_key(format, block@.extents, model, order) == expected);
                }
                assert(self@.geometry.entries == before.entries);
                return Ok(geometry);
            },
            None => {},
        }
        assert(self@.geometry.entries == before.entries);
        let geometry: DestinationGeometry = generate_geometry(target, block, &storage, order)?;
        if !self.geometry.has_capacity(MAX_ENTRIES) {
            return Ok(geometry);
        }
        let ghost entry = entry_of(fingerprint, expected, geometry);
        proof {
            assert forall|
                other_format: FormatModel,
                allocation: Seq<ShardExtent>,
                other_mappings: Seq<MappingModel>,
                other_order: CopyOrder,
            |
                #[trigger] geometry_key(other_format, allocation, other_mappings, other_order)
                    == entry.key implies target.spec_geometry(
                other_format,
                allocation,
                other_mappings,
                other_order,
            ) == Ok::<DestinationGeometry, crate::tensor::StorageError>(entry.value) by {
                lemma_geometry_depends_on_key(
                    target,
                    other_format,
                    other_mappings,
                    format,
                    model,
                    allocation,
                    order,
                );
            }
            assert(is_right_geometry(target, entry));
        }
        self.geometry.insert(fingerprint, key, geometry, MAX_ENTRIES);
        proof {
            assert(geometries_are_right(target, before.entries.push(entry)));
        }
        Ok(geometry)
    }
}

/// One copy of bytes as they lie fills the whole block.
pub open spec fn fills_block(
    shards: Seq<ShardModel>,
    mappings: Seq<Mapping>,
    destination: LowShardId,
    order: CopyOrder,
) -> bool {
    order != CopyOrder::Semantic && mappings.len() == 1 && mappings[0].1.extents
        == shards[destination.0 as int].extents
}

fn generate_copies<M: BlockTarget>(
    target: &M,
    graph: &TileGraphBuilder,
    source: &ShardView,
    destination: &ShardView,
    order: CopyOrder,
    same_buffer: bool,
) -> (r: ExpansionResult<CopyList>)
    requires
        bound(graph@.shards, source@) is Ok,
        bound(graph@.shards, destination@) is Ok,
        same_buffer == (backing(graph@.shards, source@.shard) == backing(
            graph@.shards,
            destination@.shard,
        )),
    ensures
        crate::blocks::obtained(
            r,
            relative_copies(target, graph@.shards, source@, destination@, order),
        ),
{
    let a = graph.spans(target, source, order)?;
    let b = graph.spans(target, destination, order)?;
    match pair_spans(LowShardId(0), LowShardId(1), &a, &b) {
        Ok(pairs) => {
            let joined = if same_buffer {
                pairs
            } else {
                coalesce_local_copies(pairs)
            };
            Ok(CopyList { copies: unbind(&joined) })
        },
        Err(e) => Err(pairing_failed(e)),
    }
}

fn generate_geometry<M: BlockTarget>(
    target: &M,
    block: &LowShard,
    storage: &Vec<CopyMapping>,
    order: CopyOrder,
) -> (r: ExpansionResult<DestinationGeometry>)
    ensures
        match target.spec_geometry(
            block@.tensor_type.format,
            block@.extents,
            deep(storage@),
            order,
        ) {
            Ok(geometry) => r == Ok::<DestinationGeometry, ExpansionError>(geometry),
            Err(e) => r == Err::<DestinationGeometry, ExpansionError>(ExpansionError::Storage(e)),
        },
{
    match target.destination_geometry(
        &block.tensor_type.format,
        block.extents.as_slice(),
        storage,
        order,
    ) {
        Ok(geometry) => Ok(geometry),
        Err(e) => Err(ExpansionError::Storage(e)),
    }
}

} // verus!
