//! Products that keep their outputs in place: blocks of both operands are
//! brought to every output shard, one pass along the inner axis after the other.

use crate::copies::spans_of;
use crate::deferred::{place_from, Movement};
use crate::kernels::append_kernels_from;
use crate::lookup::{
    converted_from, intersecting, local_shard, prefer_local, resides, right_shards_from,
    value_shards,
};
use crate::low::{
    ExchangeOrder, KernelRun, LocalCopy, LocalCopyPattern, LowLoweringError, LowLoweringResult,
    LowShard, LowShardId, RunModel, ShardDefinition, ShardModel, ShardView, ViewModel,
    WorkProvenance, WorkReason,
};
use crate::mid::{
    GemmWeightLoad, KernelModel, KernelSpec, LocalOperandStaging, MidOperation, MidValueId,
    OperationId, OperatorRequirementsModel,
};
use crate::model::{Model, copy_all, deep, group_deep};
use crate::phase::{add_transfer, append_ordered_phase, transfers_nonempty};
use crate::pointwise::{operator_run, receiving_shard};
use crate::state::{
    append_copies_from, found, full_view, narrow_view, push_shard, shard_of, LoweringState,
    StateModel, Step, StepWith, Transfers, TransfersModel,
};
use crate::target::Target;
use crate::tensor::{
    AxisTiling, ByteSpan, FormatModel, LayoutModel, MemoryClass, Precision, ShardExtent, TensorAxis,
    TypeModel,
};
use vstd::prelude::*;

verus! {

// ---------------------------------------------------------------- inputs

/// The parts, each with the same rectangle of `destination`.
pub open spec fn onto(parts: Seq<ViewModel>, destination: LowShardId) -> Seq<
    (ViewModel, ViewModel),
> {
    Seq::new(
        parts.len(),
        |i: int| (parts[i], ViewModel { shard: destination, extents: parts[i].extents }),
    )
}

/// A part of an input on a tile. Where the conversion to the input was left to
/// its consumers, the part is gathered from the source of the conversion.
pub open spec fn dispatch_input_view<M: Target>(
    target: &M,
    s: StateModel,
    value: MidValueId,
    tile: u16,
    ranges: Seq<(usize, u32, u32)>,
    done: Movement,
) -> StepWith<(Movement, ViewModel)> {
    match local_shard(s, value, tile) {
        Err(e) => Err(e),
        Ok(id) => match narrow_view(s.shards, id, ranges) {
            Err(e) => Err(e),
            Ok(view) => match converted_from(s, value) {
                None => Ok((s, (done, view))),
                Some(source) => match push_shard(
                    s,
                    receiving_shard(s.shards[id.0 as int], view.extents, tile),
                ) {
                    Err(e) => Err(e),
                    Ok((next, staging)) => match value_shards(next, source) {
                        Err(e) => Err(e),
                        Ok(ids) => {
                            let parts = intersecting(next.shards, ids, view.extents, tile);
                            if parts.len() == 0 {
                                Err(LowLoweringError::InvalidConversionPlan)
                            } else {
                                match place_from(
                                    target,
                                    next.shards,
                                    onto(parts, staging),
                                    tile,
                                    ExchangeOrder::Semantic,
                                    0,
                                    done,
                                ) {
                                    Err(e) => Err(e),
                                    Ok(more) => Ok(
                                        (
                                            next,
                                            (
                                                more,
                                                ViewModel {
                                                    shard: staging,
                                                    extents: view.extents,
                                                },
                                            ),
                                        ),
                                    ),
                                }
                            }
                        },
                    },
                },
            },
        },
    }
}

// ---------------------------------------------------------------- capacity

/// The shard takes interleaved memory of its own on the tile.
pub open spec fn occupies_interleaved(shard: ShardModel, tile: u16) -> bool {
    shard.tile == tile && shard.tensor_type.format.layout.memory_class
        == MemoryClass::Ipu21Interleaved && match shard.definition {
        ShardDefinition::Alias(_) => false,
        ShardDefinition::WritableAlias(_) => false,
        ShardDefinition::ExchangeStaging => false,
        _ => true,
    }
}

/// `used` with the interleaved memory of the shards from `k` on, each with the
/// bytes that are accessed beyond its end.
pub open spec fn interleaved_bytes_from<M: Target>(
    target: &M,
    shards: Seq<ShardModel>,
    tile: u16,
    access_tail: u32,
    k: int,
    used: int,
) -> Result<int, LowLoweringError>
    decreases shards.len() - k,
{
    if k >= shards.len() {
        Ok(used)
    } else if !occupies_interleaved(shards[k], tile) {
        interleaved_bytes_from(target, shards, tile, access_tail, k + 1, used)
    } else {
        match target.spec_storage_bytes(shards[k].tensor_type.format, shards[k].extents) {
            Err(e) => Err(LowLoweringError::Storage(e)),
            Ok(bytes) => if used + bytes + access_tail > u32::MAX {
                Err(LowLoweringError::IdOverflow)
            } else {
                interleaved_bytes_from(
                    target,
                    shards,
                    tile,
                    access_tail,
                    k + 1,
                    used + bytes + access_tail,
                )
            },
        }
    }
}

/// Whether a tile has room for `bytes` more of interleaved memory.
pub open spec fn interleaved_capacity<M: Target>(
    target: &M,
    shards: Seq<ShardModel>,
    tile: u16,
    bytes: u32,
    access_tail: u32,
) -> Result<bool, LowLoweringError> {
    match interleaved_bytes_from(target, shards, tile, access_tail, 0, 0) {
        Err(e) => Err(e),
        Ok(used) => Ok(
            used + bytes + access_tail <= target.spec_costs().interleaved_region_bytes,
        ),
    }
}

/// The sum of the span lengths from `k` on, added to `total`.
pub open spec fn checked_bytes_from(spans: Seq<ByteSpan>, k: int, total: int) -> Result<
    u32,
    LowLoweringError,
>
    decreases spans.len() - k,
{
    if k >= spans.len() {
        Ok(total as u32)
    } else if total + spans[k].bytes > u32::MAX {
        Err(LowLoweringError::IdOverflow)
    } else {
        checked_bytes_from(spans, k + 1, total + spans[k].bytes)
    }
}

/// The block of a right operand: inner elements and columns.
pub open spec fn right_block(
    shards: Seq<ShardModel>,
    id: LowShardId,
    columns: (u32, u32),
    inner: (u32, u32),
) -> Result<ViewModel, LowLoweringError> {
    match shard_of(shards, id) {
        Err(e) => Err(e),
        Ok(shard) => {
            let rank = shard.extents.len();
            if rank < 2 {
                Err(LowLoweringError::InvalidOperatorPlan)
            } else {
                narrow_view(
                    shards,
                    id,
                    seq![
                        ((rank - 2) as usize, inner.0, inner.1),
                        ((rank - 1) as usize, columns.0, columns.1),
                    ],
                )
            }
        },
    }
}

/// `done` followed by the tiles and bytes of the scattered blocks that the
/// outputs from `k` on use. None, where an output's block is not resident in
/// half precision, or is contiguous.
pub open spec fn scattered_blocks_from<M: Target>(
    target: &M,
    shards: Seq<ShardModel>,
    outputs: Seq<LowShardId>,
    rights: Seq<LowShardId>,
    columns: (u32, u32),
    inner: (u32, u32),
    k: int,
    done: Seq<(u16, u32)>,
) -> Result<Option<Seq<(u16, u32)>>, LowLoweringError>
    decreases outputs.len() - k,
{
    if k >= outputs.len() {
        Ok(Some(done))
    } else {
        match shard_of(shards, outputs[k]) {
            Err(e) => Err(e),
            Ok(to) => match prefer_local(
                shards,
                right_shards_from(shards, rights, columns, inner, 0, Seq::empty()),
                to.tile,
            ) {
                None => Ok(None),
                Some(right) => match shard_of(shards, right) {
                    Err(e) => Err(e),
                    Ok(from) => if from.tile != to.tile || from.tensor_type.format.precision
                        != Precision::F16 {
                        Ok(None)
                    } else {
                        match right_block(shards, right, columns, inner) {
                            Err(e) => Err(e),
                            Ok(view) => match spans_of(
                                target,
                                shards,
                                view,
                                ExchangeOrder::Physical,
                            ) {
                                Err(e) => Err(e),
                                Ok(spans) => if spans.len() <= 1 {
                                    Ok(None)
                                } else {
                                    match checked_bytes_from(spans, 0, 0) {
                                        Err(e) => Err(e),
                                        Ok(bytes) => scattered_blocks_from(
                                            target,
                                            shards,
                                            outputs,
                                            rights,
                                            columns,
                                            inner,
                                            k + 1,
                                            done.push((to.tile, bytes)),
                                        ),
                                    }
                                },
                            },
                        }
                    },
                },
            },
        }
    }
}

/// Whether every listed block from `k` on fits into interleaved memory.
pub open spec fn blocks_fit_from<M: Target>(
    target: &M,
    shards: Seq<ShardModel>,
    blocks: Seq<(u16, u32)>,
    access_tail: u32,
    k: int,
) -> Result<bool, LowLoweringError>
    decreases blocks.len() - k,
{
    if k >= blocks.len() {
        Ok(true)
    } else {
        match interleaved_capacity(target, shards, blocks[k].0, blocks[k].1, access_tail) {
            Err(e) => Err(e),
            Ok(false) => Ok(false),
            Ok(true) => blocks_fit_from(target, shards, blocks, access_tail, k + 1),
        }
    }
}

/// Whether all outputs stage their resident blocks in interleaved memory: all
/// blocks are scattered, and there is room for all.
pub open spec fn uniform_interleaved<M: Target>(
    target: &M,
    shards: Seq<ShardModel>,
    outputs: Seq<LowShardId>,
    rights: Seq<LowShardId>,
    columns: (u32, u32),
    inner: (u32, u32),
    access_tail: u32,
) -> Result<bool, LowLoweringError> {
    match scattered_blocks_from(
        target,
        shards,
        outputs,
        rights,
        columns,
        inner,
        0,
        Seq::empty(),
    ) {
        Err(e) => Err(e),
        Ok(None) => Ok(false),
        Ok(Some(blocks)) => blocks_fit_from(target, shards, blocks, access_tail, 0),
    }
}

/// Whether the tiles of the outputs from `k` on have room for staging.
pub open spec fn outputs_have_room_from<M: Target>(
    target: &M,
    shards: Seq<ShardModel>,
    outputs: Seq<LowShardId>,
    bytes: u32,
    access_tail: u32,
    k: int,
) -> Result<bool, LowLoweringError>
    decreases outputs.len() - k,
{
    if k >= outputs.len() {
        Ok(true)
    } else {
        match shard_of(shards, outputs[k]) {
            Err(e) => Err(e),
            Ok(to) => match interleaved_capacity(target, shards, to.tile, bytes, access_tail) {
                Err(e) => Err(e),
                Ok(false) => Ok(false),
                Ok(true) => outputs_have_room_from(
                    target,
                    shards,
                    outputs,
                    bytes,
                    access_tail,
                    k + 1,
                ),
            },
        }
    }
}

impl LoweringState {
    pub fn dispatch_input_view<M: Target>(
        &mut self,
        target: &M,
        value: MidValueId,
        tile: u16,
        ranges: &Vec<(usize, u32, u32)>,
        transfers: &mut Transfers,
        copies: &mut Vec<(u16, LocalCopy)>,
    ) -> (r: LowLoweringResult<ShardView>)
        ensures
            match r {
                Ok(view) => dispatch_input_view(
                    target,
                    old(self)@,
                    value,
                    tile,
                    ranges@,
                    (old(transfers)@, old(copies)@),
                ) == Ok::<(StateModel, (Movement, ViewModel)), LowLoweringError>(
                    (final(self)@, ((final(transfers)@, final(copies)@), view@)),
                ),
                Err(e) => dispatch_input_view(
                    target,
                    old(self)@,
                    value,
                    tile,
                    ranges@,
                    (old(transfers)@, old(copies)@),
                ) == Err::<(StateModel, (Movement, ViewModel)), LowLoweringError>(e),
            },
            transfers_nonempty(old(transfers)@) ==> transfers_nonempty(final(transfers)@),
    {
        broadcast use group_deep;

        let id = self.local_shard(value, tile)?;
        let view = self.narrow_view(id, ranges.as_slice())?;
        let source = match self.converted_from(value) {
            None => {
                return Ok(view);
            },
            Some(source) => source,
        };
        let ghost canonical = self@.shards[id.0 as int];
        let copy = LowShard {
            id: LowShardId(0),
            tile,
            tensor_type: self.shard(id)?.tensor_type.duplicate(),
            extents: copy_all(view.extents.as_slice()),
            definition: ShardDefinition::ExchangeStaging,
        };
        assert(copy@ == receiving_shard(canonical, view@.extents, tile));
        let staging = self.push_shard(copy)?;
        let ids = self.value_shards(source)?;
        let parts = self.intersecting_shard_set(&ids, view.extents.as_slice(), tile);
        if parts.len() == 0 {
            return Err(LowLoweringError::InvalidConversionPlan);
        }
        let ghost model = onto(deep(parts@), staging);
        let mut mappings: Vec<(ShardView, ShardView)> = Vec::new();
        let mut k: usize = 0;
        while k < parts.len()
            invariant
                k <= parts@.len(),
                mappings@.len() == k,
                forall|i: int| 0 <= i < k ==> (#[trigger] mappings@[i])@ == model[i],
            decreases parts@.len() - k,
        {
            let part = &parts[k];
            let into = ShardView { shard: staging, extents: copy_all(part.extents.as_slice()) };
            mappings.push((part.duplicate(), into));
            k += 1;
        }
        assert(deep(mappings@) =~= model);
        self.place_mappings(target, &mappings, tile, ExchangeOrder::Semantic, transfers, copies)?;
        Ok(ShardView { shard: staging, extents: view.extents })
    }

    pub fn interleaved_capacity_available<M: Target>(
        &self,
        target: &M,
        tile: u16,
        bytes: u32,
        access_tail: u32,
    ) -> (r: LowLoweringResult<bool>)
        ensures
            r == interleaved_capacity(target, self@.shards, tile, bytes, access_tail),
    {
        broadcast use group_deep;

        let mut used: u64 = 0;
        let mut k: usize = 0;
        while k < self.shards.len()
            invariant
                k <= self.shards@.len(),
                used <= u32::MAX,
                interleaved_bytes_from(target, self@.shards, tile, access_tail, 0, 0)
                    == interleaved_bytes_from(
                    target,
                    self@.shards,
                    tile,
                    access_tail,
                    k as int,
                    used as int,
                ),
            decreases self.shards@.len() - k,
        {
            let shard = &self.shards[k];
            assert(self@.shards[k as int] == shard@);
            let own = match shard.definition {
                ShardDefinition::Alias(_) => false,
                ShardDefinition::WritableAlias(_) => false,
                ShardDefinition::ExchangeStaging => false,
                _ => true,
            };
            if shard.tile == tile && shard.tensor_type.format.layout.memory_class
                == MemoryClass::Ipu21Interleaved && own {
                let more: u32 = match crate::copies::shard_storage_bytes(target, shard) {
                    Ok(more) => more,
                    Err(e) => {
                        return Err(LowLoweringError::Storage(e));
                    },
                };
                let total: u64 = used + more as u64 + access_tail as u64;
                if total > 0xffff_ffff {
                    return Err(LowLoweringError::IdOverflow);
                }
                used = total;
            }
            k += 1;
        }
        Ok(
            used + bytes as u64 + access_tail as u64
                <= target.costs().interleaved_region_bytes as u64,
        )
    }

    pub(crate) fn right_block(&self, id: LowShardId, columns: (u32, u32), inner: (u32, u32)) -> (r:
        LowLoweringResult<ShardView>)
        ensures
            found(r, right_block(self@.shards, id, columns, inner)),
    {
        let rank = self.shard(id)?.extents.len();
        if rank < 2 {
            return Err(LowLoweringError::InvalidOperatorPlan);
        }
        let mut ranges: Vec<(usize, u32, u32)> = Vec::new();
        ranges.push((rank - 2, inner.0, inner.1));
        ranges.push((rank - 1, columns.0, columns.1));
        assert(ranges@ =~= seq![
            ((rank - 2) as usize, inner.0, inner.1),
            ((rank - 1) as usize, columns.0, columns.1),
        ]);
        self.narrow_view(id, ranges.as_slice())
    }

    pub fn use_uniform_interleaved_gemm_staging<M: Target>(
        &self,
        target: &M,
        outputs: &Vec<LowShardId>,
        rights: &Vec<LowShardId>,
        columns: (u32, u32),
        inner: (u32, u32),
        access_tail: u32,
    ) -> (r: LowLoweringResult<bool>)
        ensures
            r == uniform_interleaved(
                target,
                self@.shards,
                outputs@,
                rights@,
                columns,
                inner,
                access_tail,
            ),
    {
        let candidates = self.right_shards_for_block(rights, columns, inner);
        let mut blocks: Vec<(u16, u32)> = Vec::new();
        let mut k: usize = 0;
        while k < outputs.len()
            invariant
                k <= outputs@.len(),
                scattered_blocks_from(
                    target,
                    self@.shards,
                    outputs@,
                    rights@,
                    columns,
                    inner,
                    0,
                    Seq::empty(),
                ) == scattered_blocks_from(
                    target,
                    self@.shards,
                    outputs@,
                    rights@,
                    columns,
                    inner,
                    k as int,
                    blocks@,
                ),
            decreases outputs@.len() - k,
        {
            let tile: u16 = self.shard(outputs[k])?.tile;
            let right = match self.prefer_local_shard(&candidates, tile) {
                None => {
                    return Ok(false);
                },
                Some(right) => right,
            };
            let shard = self.shard(right)?;
            if shard.tile != tile || shard.tensor_type.format.precision != Precision::F16 {
                return Ok(false);
            }
            let view = self.right_block(right, columns, inner)?;
            let spans = self.spans_of(target, &view, ExchangeOrder::Physical)?;
            if spans.len() <= 1 {
                return Ok(false);
            }
            let mut total: u64 = 0;
            let mut i: usize = 0;
            while i < spans.len()
                invariant
                    i <= spans@.len(),
                    total <= u32::MAX,
                    checked_bytes_from(spans@, 0, 0) == checked_bytes_from(
                        spans@,
                        i as int,
                        total as int,
                    ),
                decreases spans@.len() - i,
            {
                total = total + spans[i].bytes as u64;
                if total > 0xffff_ffff {
                    return Err(LowLoweringError::IdOverflow);
                }
                i += 1;
            }
            blocks.push((tile, total as u32));
            k += 1;
        }
        let mut b: usize = 0;
        while b < blocks.len()
            invariant
                b <= blocks@.len(),
                blocks_fit_from(target, self@.shards, blocks@, access_tail, 0)
                    == blocks_fit_from(
                    target,
                    self@.shards,
                    blocks@,
                    access_tail,
                    b as int,
                ),
            decreases blocks@.len() - b,
        {
            let (tile, bytes) = blocks[b];
            if !self.interleaved_capacity_available(target, tile, bytes, access_tail)? {
                return Ok(false);
            }
            b += 1;
        }
        Ok(true)
    }

    pub(crate) fn outputs_have_room<M: Target>(
        &self,
        target: &M,
        outputs: &Vec<LowShardId>,
        bytes: u32,
        access_tail: u32,
    ) -> (r: LowLoweringResult<bool>)
        ensures
            r == outputs_have_room_from(
                target,
                self@.shards,
                outputs@,
                bytes,
                access_tail,
                0,
            ),
    {
        let mut k: usize = 0;
        while k < outputs.len()
            invariant
                k <= outputs@.len(),
                outputs_have_room_from(target, self@.shards, outputs@, bytes, access_tail, 0)
                    == outputs_have_room_from(
                    target,
                    self@.shards,
                    outputs@,
                    bytes,
                    access_tail,
                    k as int,
                ),
            decreases outputs@.len() - k,
        {
            let tile: u16 = self.shard(outputs[k])?.tile;
            if !self.interleaved_capacity_available(target, tile, bytes, access_tail)? {
                return Ok(false);
            }
            k += 1;
        }
        Ok(true)
    }
}

// ---------------------------------------------------------------- blocks

/// A staged block: the tile and first column it is for.
pub type Staged = ((u16, u32), LowShardId);

/// Work of one pass, and what is staged for all passes.
#[derive(Debug)]
pub struct GemmProgress {
    pub transfers: Transfers,
    pub copies: Vec<(u16, LocalCopy)>,
    pub local: Vec<Staged>,
    pub remote: Vec<Staged>,
    /// Left operands by tile.
    pub left: Vec<(u16, ShardView)>,
    pub runs: Vec<(u16, KernelRun)>,
}

/// Abstract value of a [`GemmProgress`].
pub struct GemmModel {
    pub transfers: TransfersModel,
    pub copies: Seq<(u16, LocalCopy)>,
    pub local: Seq<Staged>,
    pub remote: Seq<Staged>,
    pub left: Seq<(u16, ViewModel)>,
    pub runs: Seq<(u16, RunModel)>,
}

impl View for GemmProgress {
    type V = GemmModel;

    open spec fn view(&self) -> GemmModel {
        GemmModel {
            transfers: self.transfers@,
            copies: self.copies@,
            local: self.local@,
            remote: self.remote@,
            left: deep(self.left@),
            runs: deep(self.runs@),
        }
    }
}

/// What the passes of a product have in common.
#[derive(Clone, Copy, Debug, PartialEq, Eq, Structural)]
pub struct GemmPlan {
    pub source: Option<OperationId>,
    pub left: MidValueId,
    pub right: MidValueId,
    pub output: MidValueId,
    pub inner_block: u32,
    pub column_block: u32,
    pub inner_blocks: u32,
    pub column_blocks: u32,
    pub left_rank: usize,
    pub output_rank: usize,
    pub access_tail: u32,
    pub local_staging: LocalOperandStaging,
    /// The right operand is divided along the inner axis.
    pub streamed: bool,
    /// Streamed blocks are staged in interleaved memory.
    pub interleaved: bool,
}

/// The kernels and requirements of a product.
pub struct GemmKernels {
    pub initialize: KernelModel,
    pub accumulate: KernelModel,
    pub requirements: OperatorRequirementsModel,
}

/// Block `k` of an axis.
pub open spec fn block_range(k: int, block: u32) -> (u32, u32) {
    ((k * block) as u32, ((k + 1) * block) as u32)
}

/// The first staged block for a tile and column, from position `i` on.
pub open spec fn staged_from(staged: Seq<Staged>, tile: u16, column: u32, i: int) -> Option<
    LowShardId,
>
    decreases staged.len() - i,
{
    if i >= staged.len() {
        None
    } else if staged[i].0 == (tile, column) {
        Some(staged[i].1)
    } else {
        staged_from(staged, tile, column, i + 1)
    }
}

/// The left operand of a tile, from position `i` on.
pub open spec fn left_from(left: Seq<(u16, ViewModel)>, tile: u16, i: int) -> Option<ViewModel>
    decreases left.len() - i,
{
    if i >= left.len() {
        None
    } else if left[i].0 == tile {
        Some(left[i].1)
    } else {
        left_from(left, tile, i + 1)
    }
}

/// A tensor type in interleaved memory.
pub open spec fn in_interleaved(tensor_type: TypeModel) -> TypeModel {
    TypeModel {
        shape: tensor_type.shape,
        format: FormatModel {
            precision: tensor_type.format.precision,
            layout: LayoutModel {
                memory_class: MemoryClass::Ipu21Interleaved,
                ..tensor_type.format.layout
            },
        },
    }
}

/// A shard on a tile that holds a block of a right operand.
pub open spec fn block_shard(
    right: ShardModel,
    extents: Seq<ShardExtent>,
    tile: u16,
    interleaved: bool,
    definition: ShardDefinition,
) -> ShardModel {
    ShardModel {
        id: LowShardId(0),
        tile,
        tensor_type: if interleaved {
            in_interleaved(right.tensor_type)
        } else {
            right.tensor_type
        },
        extents,
        definition,
    }
}

/// `done` followed by copies of the spans from `k` on to consecutive bytes.
pub open spec fn packed_copies_from(
    spans: Seq<ByteSpan>,
    source: LowShardId,
    destination: LowShardId,
    tile: u16,
    k: int,
    offset: int,
    done: Seq<(u16, LocalCopy)>,
) -> Result<Seq<(u16, LocalCopy)>, LowLoweringError>
    decreases spans.len() - k,
{
    if k >= spans.len() {
        Ok(done)
    } else if offset + spans[k].bytes > u32::MAX {
        Err(LowLoweringError::IdOverflow)
    } else {
        packed_copies_from(
            spans,
            source,
            destination,
            tile,
            k + 1,
            offset + spans[k].bytes,
            done.push(
                (
                    tile,
                    LocalCopy {
                        source,
                        source_offset: spans[k].offset,
                        destination,
                        destination_offset: offset as u32,
                        bytes: spans[k].bytes,
                        pattern: LocalCopyPattern::Contiguous,
                    },
                ),
            ),
        )
    }
}

/// Storage for a resident block that has to be packed. A later pass of a
/// product that is not streamed gets another shard in the same memory.
pub open spec fn local_block(
    s: StateModel,
    plan: GemmPlan,
    interleaved: bool,
    tile: u16,
    column: u32,
    right: LowShardId,
    view: ViewModel,
    g: GemmModel,
) -> StepWith<(GemmModel, LowShardId)> {
    let existing = staged_from(g.local, tile, column, 0);
    if plan.streamed && existing is Some {
        Ok((s, (g, existing->Some_0)))
    } else {
        match push_shard(
            s,
            block_shard(
                s.shards[right.0 as int],
                view.extents,
                tile,
                interleaved,
                if plan.streamed {
                    ShardDefinition::Staging
                } else {
                    match existing {
                        Some(id) => ShardDefinition::Alias(id),
                        None => ShardDefinition::LocalCopy(right),
                    }
                },
            ),
        ) {
            Err(e) => Err(e),
            Ok((next, copy)) => Ok(
                (
                    next,
                    (
                        if existing is None {
                            GemmModel { local: g.local.push(((tile, column), copy)), ..g }
                        } else {
                            g
                        },
                        copy,
                    ),
                ),
            ),
        }
    }
}

/// Storage that receives a remote block, in every pass the same.
pub open spec fn remote_block(
    s: StateModel,
    plan: GemmPlan,
    interleaved: bool,
    tile: u16,
    column: u32,
    right: LowShardId,
    view: ViewModel,
    g: GemmModel,
) -> StepWith<(GemmModel, LowShardId)> {
    match staged_from(g.remote, tile, column, 0) {
        Some(id) => Ok((s, (g, id))),
        None => match push_shard(
            s,
            block_shard(
                s.shards[right.0 as int],
                view.extents,
                tile,
                plan.streamed && interleaved,
                ShardDefinition::ExchangeStaging,
            ),
        ) {
            Err(e) => Err(e),
            Ok((next, copy)) => Ok(
                (next, (GemmModel { remote: g.remote.push(((tile, column), copy)), ..g }, copy)),
            ),
        },
    }
}

/// The block of a right operand on a tile: in place where it is resident and
/// contiguous, and else packed or received.
pub open spec fn resident_right<M: Target>(
    target: &M,
    s: StateModel,
    plan: GemmPlan,
    interleaved: bool,
    tile: u16,
    column: u32,
    right: LowShardId,
    view: ViewModel,
    g: GemmModel,
) -> StepWith<(GemmModel, ViewModel)> {
    if resides(s.shards, right, tile) {
        match spans_of(target, s.shards, view, ExchangeOrder::Physical) {
            Err(e) => Err(e),
            Ok(spans) => if spans.len() == 1 && (!interleaved || plan.local_staging
                == LocalOperandStaging::Direct) {
                Ok((s, (g, view)))
            } else {
                match local_block(s, plan, interleaved, tile, column, right, view, g) {
                    Err(e) => Err(e),
                    Ok((a, (more, copy))) => match packed_copies_from(
                        spans,
                        right,
                        copy,
                        tile,
                        0,
                        0,
                        more.copies,
                    ) {
                        Err(e) => Err(e),
                        Ok(copies) => match full_view(a.shards, copy) {
                            Err(e) => Err(e),
                            Ok(whole) => Ok((a, (GemmModel { copies, ..more }, whole))),
                        },
                    },
                }
            },
        }
    } else {
        match remote_block(s, plan, interleaved, tile, column, right, view, g) {
            Err(e) => Err(e),
            Ok((a, (more, copy))) => match full_view(a.shards, copy) {
                Err(e) => Err(e),
                Ok(whole) => Ok(
                    (
                        a,
                        (
                            GemmModel {
                                transfers: add_transfer(more.transfers, view, whole),
                                ..more
                            },
                            whole,
                        ),
                    ),
                ),
            },
        }
    }
}

/// A product kernel that loads its weights from where they are.
pub open spec fn loading(kernel: KernelModel, memory_class: MemoryClass) -> KernelModel {
    match kernel {
        KernelSpec::Gemm {
            multiply,
            accumulate,
            mode,
            weights,
            inner_block,
            output_columns,
        } => if memory_class == MemoryClass::Ipu21Interleaved {
            KernelSpec::Gemm {
                multiply,
                accumulate,
                mode,
                weights: GemmWeightLoad::Interleaved,
                inner_block,
                output_columns,
            }
        } else {
            kernel
        },
        _ => kernel,
    }
}

/// The left operand of a tile in one pass.
pub open spec fn left_operand<M: Target>(
    target: &M,
    s: StateModel,
    plan: GemmPlan,
    tile: u16,
    inner: (u32, u32),
    g: GemmModel,
) -> StepWith<(GemmModel, ViewModel)> {
    match left_from(g.left, tile, 0) {
        Some(view) => Ok((s, (g, view))),
        None => match dispatch_input_view(
            target,
            s,
            plan.left,
            tile,
            seq![((plan.left_rank - 1) as usize, inner.0, inner.1)],
            (g.transfers, g.copies),
        ) {
            Err(e) => Err(e),
            Ok((next, ((transfers, copies), view))) => Ok(
                (
                    next,
                    (
                        GemmModel { transfers, copies, left: g.left.push((tile, view)), ..g },
                        view,
                    ),
                ),
            ),
        },
    }
}

/// Adds the run of one output for one block of the inner axis and columns.
pub open spec fn gemm_output<M: Target>(
    target: &M,
    s: StateModel,
    plan: GemmPlan,
    kernels: GemmKernels,
    candidates: Seq<LowShardId>,
    interleaved: bool,
    output: LowShardId,
    inner: (u32, u32),
    columns: (u32, u32),
    g: GemmModel,
) -> StepWith<GemmModel> {
    match shard_of(s.shards, output) {
        Err(e) => Err(e),
        Ok(to) => match left_operand(target, s, plan, to.tile, inner, g) {
            Err(e) => Err(e),
            Ok((a, (some, left))) => match prefer_local(a.shards, candidates, to.tile) {
                None => Err(LowLoweringError::InvalidOperatorPlan),
                Some(right) => match right_block(a.shards, right, columns, inner) {
                    Err(e) => Err(e),
                    Ok(view) => match resident_right(
                        target,
                        a,
                        plan,
                        interleaved,
                        to.tile,
                        columns.0,
                        right,
                        view,
                        some,
                    ) {
                        Err(e) => Err(e),
                        Ok((b, (more, weights))) => match narrow_view(
                            b.shards,
                            output,
                            seq![((plan.output_rank - 1) as usize, columns.0, columns.1)],
                        ) {
                            Err(e) => Err(e),
                            Ok(result) => match shard_of(b.shards, weights.shard) {
                                Err(e) => Err(e),
                                Ok(held) => Ok(
                                    (
                                        b,
                                        GemmModel {
                                            runs: more.runs.push(
                                                (
                                                    to.tile,
                                                    operator_run(
                                                        WorkProvenance {
                                                            operation: plan.source,
                                                            value: Some(plan.output),
                                                            reason: WorkReason::OperatorKernel,
                                                        },
                                                        loading(
                                                            if inner.0 == 0 {
                                                                kernels.initialize
                                                            } else {
                                                                kernels.accumulate
                                                            },
                                                            held.tensor_type.format.layout.memory_class,
                                                        ),
                                                        seq![seq![left], seq![weights]],
                                                        result,
                                                        kernels.requirements,
                                                    ),
                                                ),
                                            ),
                                            ..more
                                        },
                                    ),
                                ),
                            },
                        },
                    },
                },
            },
        },
    }
}

/// Adds the runs of the outputs from `k` on.
pub open spec fn gemm_outputs_from<M: Target>(
    target: &M,
    s: StateModel,
    plan: GemmPlan,
    kernels: GemmKernels,
    candidates: Seq<LowShardId>,
    interleaved: bool,
    outputs: Seq<LowShardId>,
    inner: (u32, u32),
    columns: (u32, u32),
    k: int,
    g: GemmModel,
) -> StepWith<GemmModel>
    decreases outputs.len() - k,
{
    if k >= outputs.len() {
        Ok((s, g))
    } else {
        match gemm_output(
            target,
            s,
            plan,
            kernels,
            candidates,
            interleaved,
            outputs[k],
            inner,
            columns,
            g,
        ) {
            Err(e) => Err(e),
            Ok((next, more)) => gemm_outputs_from(
                target,
                next,
                plan,
                kernels,
                candidates,
                interleaved,
                outputs,
                inner,
                columns,
                k + 1,
                more,
            ),
        }
    }
}

/// The shard's last axis holds the columns.
pub open spec fn holds_columns(
    shards: Seq<ShardModel>,
    id: LowShardId,
    columns: (u32, u32),
) -> bool {
    id.0 < shards.len() && shards[id.0 as int].extents.len() > 0 && crate::lookup::holds_range(
        shards[id.0 as int].extents.last(),
        columns.0,
        columns.1,
    )
}

/// `done` followed by the listed shards from `k` on that hold the columns.
pub open spec fn column_outputs_from(
    shards: Seq<ShardModel>,
    ids: Seq<LowShardId>,
    columns: (u32, u32),
    k: int,
    done: Seq<LowShardId>,
) -> Seq<LowShardId>
    decreases ids.len() - k,
{
    if k >= ids.len() {
        done
    } else if holds_columns(shards, ids[k], columns) {
        column_outputs_from(shards, ids, columns, k + 1, done.push(ids[k]))
    } else {
        column_outputs_from(shards, ids, columns, k + 1, done)
    }
}

/// Whether the blocks of one column are staged in interleaved memory.
pub open spec fn column_interleaved<M: Target>(
    target: &M,
    shards: Seq<ShardModel>,
    plan: GemmPlan,
    rights: Seq<LowShardId>,
    outputs: Seq<LowShardId>,
    columns: (u32, u32),
) -> Result<bool, LowLoweringError> {
    if plan.streamed {
        Ok(plan.interleaved)
    } else if outputs.len() == 0 {
        Err(LowLoweringError::InvalidOperatorPlan)
    } else {
        uniform_interleaved(
            target,
            shards,
            outputs,
            rights,
            columns,
            (0, plan.inner_block),
            plan.access_tail,
        )
    }
}

/// Adds the runs of column block `c`.
pub open spec fn gemm_column<M: Target>(
    target: &M,
    s: StateModel,
    plan: GemmPlan,
    kernels: GemmKernels,
    rights: Seq<LowShardId>,
    outputs: Seq<LowShardId>,
    inner: (u32, u32),
    columns: (u32, u32),
    g: GemmModel,
) -> StepWith<GemmModel> {
    let candidates = right_shards_from(s.shards, rights, columns, inner, 0, Seq::empty());
    let users = column_outputs_from(s.shards, outputs, columns, 0, Seq::empty());
    if candidates.len() == 0 {
        Err(LowLoweringError::InvalidOperatorPlan)
    } else {
        match column_interleaved(target, s.shards, plan, rights, users, columns) {
            Err(e) => Err(e),
            Ok(interleaved) => gemm_outputs_from(
                target,
                s,
                plan,
                kernels,
                candidates,
                interleaved,
                users,
                inner,
                columns,
                0,
                g,
            ),
        }
    }
}

/// Adds the runs of the column blocks from `c` on.
pub open spec fn gemm_columns_from<M: Target>(
    target: &M,
    s: StateModel,
    plan: GemmPlan,
    kernels: GemmKernels,
    rights: Seq<LowShardId>,
    outputs: Seq<LowShardId>,
    inner: (u32, u32),
    c: int,
    g: GemmModel,
) -> StepWith<GemmModel>
    decreases plan.column_blocks - c,
{
    if c >= plan.column_blocks {
        Ok((s, g))
    } else {
        match gemm_column(
            target,
            s,
            plan,
            kernels,
            rights,
            outputs,
            inner,
            block_range(c, plan.column_block),
            g,
        ) {
            Err(e) => Err(e),
            Ok((next, more)) => gemm_columns_from(
                target,
                next,
                plan,
                kernels,
                rights,
                outputs,
                inner,
                c + 1,
                more,
            ),
        }
    }
}

/// The provenance of the exchange of a pass.
pub open spec fn pass_provenance(s: StateModel, plan: GemmPlan) -> WorkProvenance {
    if converted_from(s, plan.left) is Some {
        WorkProvenance {
            operation: plan.source,
            value: None,
            reason: WorkReason::OperatorInputs,
        }
    } else {
        WorkProvenance {
            operation: plan.source,
            value: Some(plan.right),
            reason: WorkReason::OperatorInput { input: 1 },
        }
    }
}

/// The work of a pass that has not begun.
pub open spec fn fresh_pass(local: Seq<Staged>, remote: Seq<Staged>) -> GemmModel {
    GemmModel {
        transfers: Seq::empty(),
        copies: Seq::empty(),
        local,
        remote,
        left: Seq::empty(),
        runs: Seq::empty(),
    }
}

/// One pass: an exchange, the copies, and the runs of one block of the inner
/// axis. Hands back what is staged.
pub open spec fn gemm_pass<M: Target>(
    target: &M,
    s: StateModel,
    plan: GemmPlan,
    kernels: GemmKernels,
    rights: Seq<LowShardId>,
    outputs: Seq<LowShardId>,
    k: int,
    local: Seq<Staged>,
    remote: Seq<Staged>,
) -> StepWith<(Seq<Staged>, Seq<Staged>)> {
    match gemm_columns_from(
        target,
        s,
        plan,
        kernels,
        rights,
        outputs,
        block_range(k, plan.inner_block),
        0,
        fresh_pass(local, remote),
    ) {
        Err(e) => Err(e),
        Ok((a, g)) => match append_ordered_phase(
            a,
            g.transfers,
            pass_provenance(a, plan),
            ExchangeOrder::Semantic,
        ) {
            Err(e) => Err(e),
            Ok(b) => match append_copies_from(b, g.copies, 0) {
                Err(e) => Err(e),
                Ok(c) => match append_kernels_from(c, g.runs, 0) {
                    Err(e) => Err(e),
                    Ok(d) => Ok((d, (g.local, g.remote))),
                },
            },
        },
    }
}

/// The passes from `k` on.
pub open spec fn gemm_passes_from<M: Target>(
    target: &M,
    s: StateModel,
    plan: GemmPlan,
    kernels: GemmKernels,
    rights: Seq<LowShardId>,
    outputs: Seq<LowShardId>,
    k: int,
    local: Seq<Staged>,
    remote: Seq<Staged>,
) -> Step
    decreases plan.inner_blocks - k,
{
    if k >= plan.inner_blocks {
        Ok(s)
    } else {
        match gemm_pass(target, s, plan, kernels, rights, outputs, k, local, remote) {
            Err(e) => Err(e),
            Ok((next, (more_local, more_remote))) => gemm_passes_from(
                target,
                next,
                plan,
                kernels,
                rights,
                outputs,
                k + 1,
                more_local,
                more_remote,
            ),
        }
    }
}

// ---------------------------------------------------------------- plans

/// The axis before the last is divided over tiles.
pub open spec fn divides_inner(axes: Seq<AxisTiling>) -> bool {
    exists|i: int|
        0 <= i < axes.len() && (#[trigger] axes[i]).axis == TensorAxis::FromEnd(2)
            && axes[i].partitions > 1
}

/// The padded length of an axis of a shard's tensor, counted from the end.
pub open spec fn padded_axis<M: Target>(
    target: &M,
    shard: ShardModel,
) -> Result<u32, LowLoweringError> {
    match target.spec_resolve(shard.tensor_type.format.layout, shard.tensor_type.shape) {
        Err(e) => Err(LowLoweringError::Layout(e)),
        Ok(resolved) => if resolved.padded_shape.len() != shard.tensor_type.shape.len() {
            Err(LowLoweringError::InvalidOperatorPlan)
        } else {
            Ok(resolved.padded_shape.last())
        },
    }
}

/// Whether streamed blocks are staged in interleaved memory: half precision,
/// and room on the tiles of all outputs.
pub open spec fn streams_interleaved<M: Target>(
    target: &M,
    shards: Seq<ShardModel>,
    outputs: Seq<LowShardId>,
    requirements: OperatorRequirementsModel,
    inner_block: u32,
    column_block: u32,
) -> Result<bool, LowLoweringError> {
    let precision = requirements.inputs[1].format.precision;
    if inner_block * column_block > u32::MAX {
        Err(LowLoweringError::IdOverflow)
    } else if requirements.inputs.len() < 2 {
        Err(LowLoweringError::InvalidOperatorPlan)
    } else if inner_block * column_block * precision.spec_bytes() > u32::MAX {
        Err(LowLoweringError::IdOverflow)
    } else if precision != Precision::F16 {
        Ok(false)
    } else {
        outputs_have_room_from(
            target,
            shards,
            outputs,
            (inner_block * column_block * precision.spec_bytes()) as u32,
            requirements.inputs[1].access_tail_bytes,
            0,
        )
    }
}

/// A product that keeps its outputs in place.
pub open spec fn lower_resident_gemm<M: Target>(
    target: &M,
    s: StateModel,
    operation: MidOperation,
    kernels: GemmKernels,
    inner_block: u32,
    column_block: u32,
    streamed: bool,
) -> Step {
    if operation.inputs@.len() != 2 {
        Err(LowLoweringError::InvalidOperatorPlan)
    } else if operation.results@.len() != 1 {
        Err(LowLoweringError::ResultArity)
    } else if inner_block == 0 || column_block == 0 {
        Err(LowLoweringError::InvalidOperatorPlan)
    } else {
        match value_shards(s, operation.inputs@[0]) {
            Err(e) => Err(e),
            Ok(lefts) => match value_shards(s, operation.inputs@[1]) {
                Err(e) => Err(e),
                Ok(rights) => match value_shards(s, operation.results@[0]) {
                    Err(e) => Err(e),
                    Ok(outputs) => lower_resident_product(
                        target,
                        s,
                        operation,
                        kernels,
                        inner_block,
                        column_block,
                        streamed,
                        lefts,
                        rights,
                        outputs,
                    ),
                },
            },
        }
    }
}

/// A product whose right operand is divided along the inner axis, so that its
/// blocks pass through staging storage one inner block at a time.
pub open spec fn lower_streamed_blocked_gemm<M: Target>(
    target: &M,
    s: StateModel,
    operation: MidOperation,
    kernels: GemmKernels,
    inner_block: u32,
    column_block: u32,
) -> Step {
    lower_resident_gemm(target, s, operation, kernels, inner_block, column_block, true)
}

/// A product between known shards. Without columns there are no passes to make,
/// which is right only where there is nothing to multiply.
pub open spec fn lower_resident_product<M: Target>(
    target: &M,
    s: StateModel,
    operation: MidOperation,
    kernels: GemmKernels,
    inner_block: u32,
    column_block: u32,
    streamed: bool,
    lefts: Seq<LowShardId>,
    rights: Seq<LowShardId>,
    outputs: Seq<LowShardId>,
) -> Step {
    match shard_of(s.shards, lefts[0]) {
        Err(e) => Err(e),
        Ok(left) => match shard_of(s.shards, outputs[0]) {
            Err(e) => Err(e),
            Ok(output) => if left.tensor_type.shape.len() < 2 || output.tensor_type.shape.len()
                < 2 {
                Err(LowLoweringError::InvalidOperatorPlan)
            } else {
                match padded_axis(target, left) {
                    Err(e) => Err(e),
                    Ok(inner) => match padded_axis(target, output) {
                        Err(e) => Err(e),
                        Ok(columns) => if inner % inner_block != 0 || columns % column_block != 0
                            || (columns == 0 && !streamed) {
                            Err(LowLoweringError::InvalidOperatorPlan)
                        } else {
                            match (if streamed {
                                streams_interleaved(
                                    target,
                                    s.shards,
                                    outputs,
                                    kernels.requirements,
                                    inner_block,
                                    column_block,
                                )
                            } else if kernels.requirements.inputs.len() < 2 {
                                Err(LowLoweringError::InvalidOperatorPlan)
                            } else {
                                Ok(false)
                            }) {
                                Err(e) => Err(e),
                                Ok(interleaved) => if columns == 0 && inner != 0 {
                                    Err(LowLoweringError::InvalidOperatorPlan)
                                } else {
                                    gemm_passes_from(
                                        target,
                                        s,
                                        GemmPlan {
                                            source: operation.source,
                                            left: operation.inputs@[0],
                                            right: operation.inputs@[1],
                                            output: operation.results@[0],
                                            inner_block,
                                            column_block,
                                            inner_blocks: (inner / inner_block) as u32,
                                            column_blocks: (columns / column_block) as u32,
                                            left_rank: left.tensor_type.shape.len() as usize,
                                            output_rank: output.tensor_type.shape.len() as usize,
                                            access_tail:
                                                kernels.requirements.inputs[1].access_tail_bytes,
                                            local_staging:
                                                kernels.requirements.inputs[1].local_staging,
                                            streamed,
                                            interleaved,
                                        },
                                        kernels,
                                        rights,
                                        outputs,
                                        0,
                                        Seq::empty(),
                                        Seq::empty(),
                                    )
                                },
                            }
                        },
                    },
                }
            },
        },
    }
}

} // verus!
