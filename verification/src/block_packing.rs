//! Preparing destinations: choosing whether copied elements are packed in a
//! second step, and clearing what no copy writes.

use crate::blocks::{
    append_block_run, block_of, built, new_plain_run, one_view, plain_run, BlockKernel,
    BlockKernelModel, BlockStep, BlockTarget, BuilderModel, DestinationGeometry, ExpansionError,
    ExpansionResult, Region, TileGraphBuilder,
};
use crate::fragments::{div_ceil, div_ceil_u64, sat_add, sat_mul, saturating_mul};
use crate::low::{LowShard, LowShardId, ShardModel, ViewModel, WorkProvenance};
use crate::mid::{KernelModel, KernelSpec, TileKernelSpec};
use crate::model::{Model, copy_all, deep, group_deep};
use crate::tensor::{
    replicated_layout, AmpOrder, BlockMajorOrder, ByteSpan, ElementOrder, FormatModel, Layout,
    MemoryClass, Precision, ShardExtent, TensorType, TypeModel,
};
use vstd::prelude::*;

verus! {

/// How a copy of coordinates is carried out.
#[derive(Clone, Copy, Debug, PartialEq, Eq, PartialOrd, Ord, Hash, Structural)]
pub enum CopyPolicy {
    /// Chosen by what the blocks are like.
    Automatic,
    /// Run a rearrangement kernel on corresponding resident blocks.
    LocalKernel,
    /// Transfer compatible bytes directly to their destination.
    DirectRetile,
    /// Transfer values through row-major staging, then pack locally.
    StageLogicalThenTransform,
    /// Gather panels on idle tiles, then send each to all its receivers.
    GatherThenMulticast,
}

impl Default for CopyPolicy {
    fn default() -> (r: CopyPolicy)
        ensures
            r == CopyPolicy::Automatic,
    {
        CopyPolicy::Automatic
    }
}

/// The policy between two layouts: equal orders are transferred byte by byte.
pub open spec fn policy_between(from: ElementOrder, to: ElementOrder) -> CopyPolicy {
    if from == to {
        CopyPolicy::DirectRetile
    } else {
        CopyPolicy::StageLogicalThenTransform
    }
}

pub fn default_copy_policy(from: &Layout, to: &Layout) -> (r: CopyPolicy)
    ensures
        r == policy_between(from@.order, to@.order),
{
    if from.order == to.order {
        CopyPolicy::DirectRetile
    } else {
        CopyPolicy::StageLogicalThenTransform
    }
}

/// How the destination of a copy is prepared. The copied values do not depend
/// on it.
#[derive(Clone, Copy, Debug, PartialEq, Eq, PartialOrd, Ord, Hash, Structural)]
pub enum PackingPolicy {
    /// Chosen by cost.
    Automatic,
    /// Move words directly, without scratch storage.
    Direct,
    /// Populate row-major scratch storage, then pack into the destination.
    Staged,
}

impl Default for PackingPolicy {
    fn default() -> (r: PackingPolicy)
        ensures
            r == PackingPolicy::Automatic,
    {
        PackingPolicy::Automatic
    }
}

// ---------------------------------------------------------------- packing

/// A rectangle without its padding.
pub open spec fn useful(extents: Seq<ShardExtent>) -> Seq<ShardExtent> {
    Seq::new(
        extents.len(),
        |i: int| ShardExtent { physical_end: extents[i].logical_end, ..extents[i] },
    )
}

/// A tensor type in row-major order on one tile.
pub open spec fn row_major_type(tensor_type: TypeModel) -> TypeModel {
    TypeModel {
        shape: tensor_type.shape,
        format: FormatModel {
            precision: tensor_type.format.precision,
            layout: replicated_layout(ElementOrder::RowMajor, MemoryClass::Ipu21Standard),
        },
    }
}

/// The kernel that rearranges row-major elements into a block, where there is
/// one.
pub open spec fn pack_kernel(tensor_type: TypeModel) -> Option<KernelModel> {
    if tensor_type.format.precision == Precision::F16 && packs(tensor_type.format.layout.order) {
        Some(
            KernelSpec::Rearrange {
                from: row_major_type(tensor_type).format.layout,
                to: tensor_type.format.layout,
            },
        )
    } else {
        None
    }
}

/// A kernel can write this order from row-major elements.
pub open spec fn packs(order: ElementOrder) -> bool {
    order == ElementOrder::Amp(AmpOrder::Left) || order == ElementOrder::Amp(
        AmpOrder::TransposedRight,
    ) || order matches ElementOrder::BlockMajor(BlockMajorOrder::Matrix { .. })
}

/// Cycles to clear a destination that the copies do not cover.
pub open spec fn clear_cycles(launch: u64, geometry: DestinationGeometry) -> u64 {
    if geometry.padding {
        sat_add(launch, div_ceil(geometry.bytes as int, 48) as u64)
    } else {
        0
    }
}

/// Exchanging the pieces of a destination directly costs less than packing it.
pub open spec fn direct_is_cheaper<M: BlockTarget>(
    target: &M,
    block: ShardModel,
    geometry: DestinationGeometry,
) -> bool {
    match geometry.fragments {
        None => false,
        Some(fragments) => sat_add(
            target.spec_exchange_cycles(geometry.bytes as u64, fragments),
            clear_cycles(target.spec_costs().kernel_launch_cycles, geometry),
        ) < target.spec_rearrange_cycles(block.tensor_type.format, block.extents),
    }
}

/// Whether the copies into a block go through scratch storage.
pub open spec fn is_staged<M: BlockTarget>(
    target: &M,
    block: ShardModel,
    geometry: DestinationGeometry,
    policy: PackingPolicy,
) -> Result<bool, ExpansionError> {
    let transform = geometry.semantic && (!geometry.destination_word_aligned || (
    block.tensor_type.format.layout.order != ElementOrder::RowMajor
        && !geometry.same_element_order));
    match policy {
        PackingPolicy::Staged => if transform {
            Ok(true)
        } else {
            Err(ExpansionError::InvalidCopyPlan)
        },
        PackingPolicy::Direct => if transform && geometry.fragments is None {
            Err(ExpansionError::InvalidCopyPlan)
        } else {
            Ok(false)
        },
        PackingPolicy::Automatic => Ok(transform && !direct_is_cheaper(target, block, geometry)),
    }
}

fn may_pack(order: ElementOrder) -> (r: bool)
    ensures
        r == packs(order),
{
    match order {
        ElementOrder::Amp(AmpOrder::Left) => true,
        ElementOrder::Amp(AmpOrder::TransposedRight) => true,
        ElementOrder::BlockMajor(BlockMajorOrder::Matrix { .. }) => true,
        _ => false,
    }
}

/// A rectangle without its padding.
pub fn without_padding(extents: &[ShardExtent]) -> (r: Vec<ShardExtent>)
    ensures
        r@ == useful(extents@),
{
    let mut result: Vec<ShardExtent> = Vec::new();
    let mut i: usize = 0;
    while i < extents.len()
        invariant
            i <= extents@.len(),
            result@.len() == i,
            forall|k: int| 0 <= k < i ==> (#[trigger] result@[k]) == useful(extents@)[k],
        decreases extents@.len() - i,
    {
        let extent: ShardExtent = extents[i];
        result.push(
            ShardExtent {
                axis: extent.axis,
                start: extent.start,
                logical_end: extent.logical_end,
                physical_end: extent.logical_end,
            },
        );
        i += 1;
    }
    assert(result@ =~= useful(extents@));
    result
}

/// A tensor type in row-major order on one tile.
pub fn in_row_major(tensor_type: &TensorType) -> (r: TensorType)
    ensures
        r@ == row_major_type(tensor_type@),
{
    let mut staging = tensor_type.duplicate();
    staging.format.layout = Layout::local(ElementOrder::RowMajor, MemoryClass::Ipu21Standard);
    staging
}

/// The kernel that packs a block, where there is one.
pub fn packing_kernel(tensor_type: &TensorType) -> (r: Option<TileKernelSpec>)
    ensures
        match r {
            Some(kernel) => pack_kernel(tensor_type@) == Some(kernel@),
            None => pack_kernel(tensor_type@) is None,
        },
{
    if tensor_type.format.precision == Precision::F16 && may_pack(tensor_type.format.layout.order) {
        let from = Layout::local(ElementOrder::RowMajor, MemoryClass::Ipu21Standard);
        let to = tensor_type.format.layout.duplicate();
        Some(KernelSpec::Rearrange { from, to })
    } else {
        None
    }
}

/// Chooses whether the copies into a block go through scratch storage.
pub fn select_destination_packing<M: BlockTarget>(
    target: &M,
    block: &LowShard,
    geometry: DestinationGeometry,
    policy: PackingPolicy,
) -> (r: ExpansionResult<bool>)
    ensures
        r == is_staged(target, block@, geometry, policy),
{
    let row_major = match block.tensor_type.format.layout.order {
        ElementOrder::RowMajor => true,
        _ => false,
    };
    let transform = geometry.semantic && (!geometry.destination_word_aligned || (!row_major
        && !geometry.same_element_order));
    match policy {
        PackingPolicy::Staged => {
            if transform {
                Ok(true)
            } else {
                Err(ExpansionError::InvalidCopyPlan)
            }
        },
        PackingPolicy::Direct => {
            if transform && geometry.fragments.is_none() {
                Err(ExpansionError::InvalidCopyPlan)
            } else {
                Ok(false)
            }
        },
        PackingPolicy::Automatic => {
            if !transform {
                return Ok(false);
            }
            match geometry.fragments {
                None => Ok(true),
                Some(fragments) => {
                    let clear: u64 = if geometry.padding {
                        target.costs().kernel_launch_cycles.saturating_add(
                            div_ceil_u64(geometry.bytes as u64, 48),
                        )
                    } else {
                        0
                    };
                    let direct: u64 = target.exchange_work_cycles(
                        geometry.bytes as u64,
                        fragments,
                    ).saturating_add(clear);
                    let packed: u64 = target.rearrange_cycles(
                        &block.tensor_type.format,
                        block.extents.as_slice(),
                    );
                    Ok(!(direct < packed))
                },
            }
        },
    }
}

// ---------------------------------------------------------------- clearing

/// Clears a range of bytes of a block.
pub open spec fn append_zero_range(
    s: BuilderModel,
    shard: LowShardId,
    range: ByteSpan,
    padding_only: bool,
    provenance: WorkProvenance,
) -> BlockStep {
    match block_of(s.shards, shard) {
        Err(e) => Err(e),
        Ok(block) => append_block_run(
            s,
            block.tile,
            plain_run(
                provenance,
                BlockKernelModel::FillZero {
                    offset: range.offset,
                    bytes: range.bytes,
                    padding_only,
                },
                Seq::empty(),
                seq![ViewModel { shard, extents: block.extents }],
            ),
        ),
    }
}

/// A range widened to whole units of eight bytes, inside an allocation.
pub open spec fn widened(range: ByteSpan, limit: u32) -> ByteSpan {
    let start = range.offset / 8 * 8;
    let whole = div_ceil(range.offset + range.bytes, 8) * 8;
    let end = if whole < limit {
        whole
    } else {
        limit as int
    };
    ByteSpan {
        offset: start as u32,
        bytes: if end > start {
            (end - start) as u32
        } else {
            0
        },
    }
}

/// Two ranges are cleared together: the gap is small.
pub open spec fn clears_together(range: ByteSpan, next: ByteSpan, gap: u64) -> bool {
    &&& next.offset - (range.offset + range.bytes) <= gap
    &&& next.offset + next.bytes >= range.offset
}

/// One range from the start of the first to the end of the second.
pub open spec fn spanning(range: ByteSpan, next: ByteSpan) -> ByteSpan {
    ByteSpan { offset: range.offset, bytes: (next.offset + next.bytes - range.offset) as u32 }
}

/// `range` with the following ranges, from `i` on, that it is cleared together
/// with, and the position after them.
pub open spec fn merged_clear(
    ranges: Seq<ByteSpan>,
    limit: u32,
    gap: u64,
    i: int,
    range: ByteSpan,
) -> (ByteSpan, int)
    decreases ranges.len() - i,
{
    if i >= ranges.len() || !clears_together(range, widened(ranges[i], limit), gap) {
        (range, i)
    } else {
        merged_clear(ranges, limit, gap, i + 1, spanning(range, widened(ranges[i], limit)))
    }
}

/// Clears the ranges from `i` on.
pub open spec fn clear_from(
    s: BuilderModel,
    shard: LowShardId,
    ranges: Seq<ByteSpan>,
    limit: u32,
    gap: u64,
    padding_only: bool,
    provenance: WorkProvenance,
    i: int,
) -> BlockStep
    decreases ranges.len() - i,
{
    if i >= ranges.len() {
        Ok(s)
    } else {
        let (range, next) = merged_clear(
            ranges,
            limit,
            gap,
            i + 1,
            widened(ranges[i], limit),
        );
        if next <= i || next > ranges.len() {
            Ok(s)
        } else {
            match append_zero_range(s, shard, range, padding_only, provenance) {
                Err(e) => Err(e),
                Ok(t) => clear_from(
                    t,
                    shard,
                    ranges,
                    limit,
                    gap,
                    padding_only,
                    provenance,
                    next,
                ),
            }
        }
    }
}

/// Clears bytes of a block before copies into it. Small gaps are cleared along,
/// since the copies come later.
pub open spec fn append_copy_clears<M: BlockTarget>(
    target: &M,
    s: BuilderModel,
    shard: LowShardId,
    ranges: Seq<ByteSpan>,
    provenance: WorkProvenance,
) -> BlockStep {
    match block_of(s.shards, shard) {
        Err(e) => Err(e),
        Ok(block) => match target.spec_uncovered(
            block.tensor_type.format,
            block.extents,
            seq![block.extents],
            crate::blocks::CopyOrder::Semantic,
        ) {
            Err(e) => Err(ExpansionError::Storage(e)),
            Ok(padding) => match target.spec_storage_bytes(
                block.tensor_type.format,
                block.extents,
            ) {
                Err(e) => Err(ExpansionError::Storage(e)),
                Ok(bytes) => clear_from(
                    s,
                    shard,
                    ranges,
                    bytes,
                    sat_mul(target.spec_costs().kernel_launch_cycles, 48),
                    padding.len() > 0 && ranges == padding,
                    provenance,
                    0,
                ),
            },
        },
    }
}

/// Every byte of the ranges lies in a range that is cleared with them: merging
/// never drops a byte.
pub proof fn lemma_merged_clear_covers(
    ranges: Seq<ByteSpan>,
    limit: u32,
    gap: u64,
    i: int,
    range: ByteSpan,
)
    requires
        0 <= i <= ranges.len(),
        forall|k: int|
            0 <= k < ranges.len() ==> (#[trigger] ranges[k]).offset + ranges[k].bytes <= limit,
        forall|a: int, b: int|
            0 <= a < b < ranges.len() ==> (#[trigger] ranges[a]).offset + ranges[a].bytes
                <= (#[trigger] ranges[b]).offset,
        range.offset + range.bytes <= limit,
        forall|k: int| i <= k < ranges.len() ==> range.offset <= (#[trigger] ranges[k]).offset,
    ensures
        ({
            let (merged, next) = merged_clear(ranges, limit, gap, i, range);
            &&& i <= next <= ranges.len()
            &&& merged.offset == range.offset
            &&& merged.offset + merged.bytes <= limit
            &&& next == i ==> merged == range
            &&& forall|k: int|
                i <= k < next ==> merged.offset <= (#[trigger] ranges[k]).offset && ranges[k].offset
                    + ranges[k].bytes <= merged.offset + merged.bytes
        }),
    decreases ranges.len() - i,
{
    if i < ranges.len() && clears_together(range, widened(ranges[i], limit), gap) {
        let next = widened(ranges[i], limit);
        assert(next.offset <= ranges[i].offset);
        assert(next.offset + next.bytes >= ranges[i].offset + ranges[i].bytes);
        assert(next.offset + next.bytes <= limit);
        let joined = spanning(range, next);
        assert(joined.offset + joined.bytes == next.offset + next.bytes);
        lemma_merged_clear_covers(ranges, limit, gap, i + 1, joined);
        let (merged, last) = merged_clear(ranges, limit, gap, i + 1, joined);
        assert(merged_clear(ranges, limit, gap, i, range) == (merged, last));
        if last > i + 1 {
            assert(ranges[i].offset + ranges[i].bytes <= ranges[i + 1].offset);
            assert(ranges[i + 1].offset + ranges[i + 1].bytes <= merged.offset + merged.bytes);
        }
    }
}

fn widen(range: ByteSpan, limit: u32) -> (r: ByteSpan)
    ensures
        r == widened(range, limit),
        r.offset + r.bytes <= u32::MAX,
{
    let start: u32 = range.offset / 8 * 8;
    let whole: u64 = div_ceil_u64(range.offset as u64 + range.bytes as u64, 8) * 8;
    let end: u64 = if whole < limit as u64 {
        whole
    } else {
        limit as u64
    };
    let bytes: u32 = if end > start as u64 {
        (end - start as u64) as u32
    } else {
        0
    };
    ByteSpan { offset: start, bytes }
}

fn are_same_spans(a: &Vec<ByteSpan>, b: &Vec<ByteSpan>) -> (r: bool)
    ensures
        r == (a@ == b@),
{
    if a.len() != b.len() {
        return false;
    }
    let mut i: usize = 0;
    while i < a.len()
        invariant
            i <= a@.len(),
            a@.len() == b@.len(),
            forall|k: int| 0 <= k < i ==> #[trigger] a@[k] == b@[k],
        decreases a@.len() - i,
    {
        if a[i].offset != b[i].offset || a[i].bytes != b[i].bytes {
            return false;
        }
        i += 1;
    }
    assert(a@ =~= b@);
    true
}

impl TileGraphBuilder {
    /// Clears a range of bytes of a block.
    pub fn append_zero_range(
        &mut self,
        shard: LowShardId,
        range: ByteSpan,
        padding_only: bool,
        provenance: WorkProvenance,
    ) -> (r: ExpansionResult<()>)
        ensures
            built(
                r,
                final(self)@,
                append_zero_range(old(self)@, shard, range, padding_only, provenance),
            ),
    {
        broadcast use group_deep;

        let view = self.full_view(shard)?;
        let tile: u16 = self.block(shard)?.tile;
        let run = new_plain_run(
            provenance,
            BlockKernel::FillZero { offset: range.offset, bytes: range.bytes, padding_only },
            Vec::new(),
            one_view(view),
        );
        self.append_kernel(tile, run)
    }

    /// Clears bytes of a block before copies into it.
    pub fn append_copy_clears<M: BlockTarget>(
        &mut self,
        target: &M,
        shard: LowShardId,
        ranges: &Vec<ByteSpan>,
        provenance: WorkProvenance,
    ) -> (r: ExpansionResult<()>)
        ensures
            built(
                r,
                final(self)@,
                append_copy_clears(target, old(self)@, shard, ranges@, provenance),
            ),
    {
        broadcast use group_deep;

        let ghost start = self@;
        let block = self.block(shard)?;
        let mut whole: Vec<Region> = Vec::new();
        whole.push(Region { extents: copy_all(block.extents.as_slice()) });
        assert(deep(whole@) =~= seq![block@.extents]);
        let padding = match target.uncovered_bytes(
            &block.tensor_type.format,
            block.extents.as_slice(),
            &whole,
            crate::blocks::CopyOrder::Semantic,
        ) {
            Ok(padding) => padding,
            Err(e) => {
                return Err(ExpansionError::Storage(e));
            },
        };
        let limit: u32 = match target.storage_bytes(
            &block.tensor_type.format,
            block.extents.as_slice(),
        ) {
            Ok(bytes) => bytes,
            Err(e) => {
                return Err(ExpansionError::Storage(e));
            },
        };
        let padding_only = padding.len() > 0 && are_same_spans(ranges, &padding);
        let gap: u64 = saturating_mul(target.costs().kernel_launch_cycles, 48);
        let mut i: usize = 0;
        while i < ranges.len()
            invariant
                i <= ranges@.len(),
                clear_from(
                    start,
                    shard,
                    ranges@,
                    limit,
                    gap,
                    padding_only,
                    provenance,
                    0,
                ) == clear_from(
                    self@,
                    shard,
                    ranges@,
                    limit,
                    gap,
                    padding_only,
                    provenance,
                    i as int,
                ),
            decreases ranges@.len() - i,
        {
            let ghost first = widened(ranges@[i as int], limit);
            let mut range: ByteSpan = widen(ranges[i], limit);
            let mut next: usize = i + 1;
            let mut open = true;
            while next < ranges.len() && open
                invariant
                    i < next <= ranges@.len(),
                    range.offset + range.bytes <= u32::MAX,
                    open ==> merged_clear(ranges@, limit, gap, i + 1, first) == merged_clear(
                        ranges@,
                        limit,
                        gap,
                        next as int,
                        range,
                    ),
                    !open ==> merged_clear(ranges@, limit, gap, i + 1, first) == (
                        range,
                        next as int,
                    ),
                decreases ranges@.len() - next + (if open {
                    1int
                } else {
                    0
                }),
            {
                let following: ByteSpan = widen(ranges[next], limit);
                let end: u32 = range.offset + range.bytes;
                let following_end: u32 = following.offset + following.bytes;
                if (following.offset <= end || (following.offset - end) as u64 <= gap)
                    && following_end >= range.offset {
                    range = ByteSpan { offset: range.offset, bytes: following_end - range.offset };
                    next += 1;
                } else {
                    open = false;
                }
            }
            self.append_zero_range(shard, range, padding_only, provenance)?;
            i = next;
        }
        Ok(())
    }
}

} // verus!
