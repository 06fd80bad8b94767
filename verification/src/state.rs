//! The schedule under construction, and the steps that extend it.

use crate::low::{
    ExchangePhase, KernelRun, KernelRunId, KernelRunMetadata, LocalCopy, LocalCopyId,
    LowLoweringError, LowLoweringResult, LowShard, LowShardId, MetadataModel, PhaseModel,
    RepeatModel, RepeatRun, RepeatRunId, RunModel, ShardDefinition, ShardModel, ShardView, TileWork,
    TileWorkList, ViewModel, WorkListModel,
};
use crate::mid::{DeferredTransform, MidValueId};
use crate::model::{Model, copy_all, deep, group_deep};
use crate::order::{GroupModel, Groups};
use crate::tensor::ShardExtent;
use std::sync::Arc;
use vstd::prelude::*;

verus! {

/// Transfers by source view: every item is a source with one destination.
pub type Transfers = Groups<(ShardView, ShardView)>;

/// Abstract value of [`Transfers`].
pub type TransfersModel = Seq<GroupModel<(ViewModel, ViewModel)>>;

/// A value that its consumers read through a transform of other shards.
#[derive(Debug)]
pub struct DeferredValue {
    pub value: MidValueId,
    pub transform: DeferredTransform,
    pub shards: Vec<LowShardId>,
}

/// Abstract value of a [`DeferredValue`].
pub struct DeferredModel {
    pub value: MidValueId,
    pub transform: DeferredTransform,
    pub shards: Seq<LowShardId>,
}

impl View for DeferredValue {
    type V = DeferredModel;

    open spec fn view(&self) -> DeferredModel {
        DeferredModel { value: self.value, transform: self.transform, shards: self.shards@ }
    }
}

/// The shards of one value.
#[derive(Debug)]
pub struct ShardList {
    pub shards: Vec<LowShardId>,
}

impl View for ShardList {
    type V = Seq<LowShardId>;

    open spec fn view(&self) -> Seq<LowShardId> {
        self.shards@
    }
}

/// A schedule under construction.
#[derive(Debug)]
pub struct LoweringState {
    pub tile_count: u16,
    pub shards: Vec<LowShard>,
    /// Canonical shards of every value, indexed by value.
    pub canonical: Vec<ShardList>,
    pub phases: Vec<ExchangePhase>,
    pub kernel_runs: Vec<KernelRun>,
    pub local_copies: Vec<LocalCopy>,
    pub repeat_runs: Vec<RepeatRun>,
    /// Metadata that kernel runs share, without duplicates.
    pub kernel_metadata: Vec<Arc<KernelRunMetadata>>,
    /// Conversions that consumers carry out: result and source, newest last.
    pub deferred_conversions: Vec<(MidValueId, MidValueId)>,
    /// Views that consumers apply, newest last.
    pub deferred_values: Vec<DeferredValue>,
    /// Work of the region that is being lowered, by tile.
    pub tiles: Vec<TileWorkList>,
}

/// Abstract value of a [`LoweringState`].
pub struct StateModel {
    pub tile_count: u16,
    pub shards: Seq<ShardModel>,
    pub canonical: Seq<Seq<LowShardId>>,
    pub phases: Seq<PhaseModel>,
    pub kernel_runs: Seq<RunModel>,
    pub local_copies: Seq<LocalCopy>,
    pub repeat_runs: Seq<RepeatModel>,
    pub kernel_metadata: Seq<MetadataModel>,
    pub deferred_conversions: Seq<(MidValueId, MidValueId)>,
    pub deferred_values: Seq<DeferredModel>,
    pub tiles: Seq<WorkListModel>,
}

impl View for LoweringState {
    type V = StateModel;

    open spec fn view(&self) -> StateModel {
        StateModel {
            tile_count: self.tile_count,
            shards: deep(self.shards@),
            canonical: deep(self.canonical@),
            phases: deep(self.phases@),
            kernel_runs: deep(self.kernel_runs@),
            local_copies: self.local_copies@,
            repeat_runs: deep(self.repeat_runs@),
            kernel_metadata: deep(self.kernel_metadata@),
            deferred_conversions: self.deferred_conversions@,
            deferred_values: deep(self.deferred_values@),
            tiles: deep(self.tiles@),
        }
    }
}

/// What a step that changes the schedule leaves: the new schedule, or an error.
pub type Step = Result<StateModel, LowLoweringError>;

/// A step's result: the schedule it leaves with what it hands back.
pub type StepWith<T> = Result<(StateModel, T), LowLoweringError>;

/// `r` is what `step` promises: on success the schedule it leaves is `after`.
pub open spec fn did(r: LowLoweringResult<()>, after: StateModel, step: Step) -> bool {
    match r {
        Ok(_) => step == Ok::<StateModel, LowLoweringError>(after),
        Err(e) => step == Err::<StateModel, LowLoweringError>(e),
    }
}

/// `r` is what `step` promises: the schedule that it leaves is `after`, and
/// what it hands back is `r`'s value.
pub open spec fn gave<T>(r: LowLoweringResult<T>, after: StateModel, step: StepWith<T>) -> bool {
    match r {
        Ok(value) => step == Ok::<(StateModel, T), LowLoweringError>((after, value)),
        Err(e) => step == Err::<(StateModel, T), LowLoweringError>(e),
    }
}

/// `r` has the given abstract value, or is the given error.
pub open spec fn found<T: View>(
    r: LowLoweringResult<T>,
    expected: Result<T::V, LowLoweringError>,
) -> bool {
    match r {
        Ok(value) => expected == Ok::<T::V, LowLoweringError>(value@),
        Err(e) => expected == Err::<T::V, LowLoweringError>(e),
    }
}

/// `r` has the given elements, or is the given error.
pub open spec fn found_all<T: View>(
    r: LowLoweringResult<Vec<T>>,
    expected: Result<Seq<T::V>, LowLoweringError>,
) -> bool {
    match r {
        Ok(values) => expected == Ok::<Seq<T::V>, LowLoweringError>(deep(values@)),
        Err(e) => expected == Err::<Seq<T::V>, LowLoweringError>(e),
    }
}

/// Whether an id can still be given to the next element of an arena.
pub open spec fn id_free(len: nat) -> bool {
    len <= u32::MAX
}

// ---------------------------------------------------------------- shards

/// The shard with the given id. An id that names no shard makes the plan that
/// it came from invalid.
pub open spec fn shard_of(shards: Seq<ShardModel>, id: LowShardId) -> Result<
    ShardModel,
    LowLoweringError,
> {
    if id.0 < shards.len() {
        Ok(shards[id.0 as int])
    } else {
        Err(LowLoweringError::InvalidOperatorPlan)
    }
}

/// Adds a shard, which takes the next id.
pub open spec fn push_shard(s: StateModel, shard: ShardModel) -> StepWith<LowShardId> {
    if id_free(s.shards.len()) {
        let id = LowShardId(s.shards.len() as u32);
        Ok(
            (
                StateModel { shards: s.shards.push(ShardModel { id, ..shard }), ..s },
                id,
            ),
        )
    } else {
        Err(LowLoweringError::IdOverflow)
    }
}

/// Replaces the definition of a shard.
pub open spec fn redefine(s: StateModel, id: LowShardId, definition: ShardDefinition) -> Step {
    if id.0 < s.shards.len() {
        Ok(
            StateModel {
                shards: s.shards.update(
                    id.0 as int,
                    ShardModel { definition, ..s.shards[id.0 as int] },
                ),
                ..s
            },
        )
    } else {
        Err(LowLoweringError::InvalidOperatorPlan)
    }
}

/// The allocation behind a shard, found by at most `fuel` alias steps.
pub open spec fn root_within(shards: Seq<ShardModel>, id: LowShardId, fuel: nat) -> LowShardId
    decreases fuel,
{
    if fuel == 0 || id.0 >= shards.len() {
        id
    } else {
        match shards[id.0 as int].definition {
            ShardDefinition::Alias(source) => root_within(shards, source, (fuel - 1) as nat),
            ShardDefinition::WritableAlias(source) => root_within(
                shards,
                source,
                (fuel - 1) as nat,
            ),
            _ => id,
        }
    }
}

/// The allocation behind a shard.
pub open spec fn storage_root(shards: Seq<ShardModel>, id: LowShardId) -> LowShardId {
    root_within(shards, id, shards.len() + 1)
}

/// The whole of a shard.
pub open spec fn full_view(shards: Seq<ShardModel>, id: LowShardId) -> Result<
    ViewModel,
    LowLoweringError,
> {
    match shard_of(shards, id) {
        Ok(shard) => Ok(ViewModel { shard: id, extents: shard.extents }),
        Err(e) => Err(e),
    }
}

/// One axis restricted to `start..end`.
pub open spec fn narrowed(extent: ShardExtent, start: u32, end: u32) -> ShardExtent {
    ShardExtent {
        axis: extent.axis,
        start,
        logical_end: if end <= extent.logical_end {
            end
        } else if extent.logical_end >= start {
            extent.logical_end
        } else {
            start
        },
        physical_end: end,
    }
}

/// The extents after the restrictions from position `i` on were applied in turn.
pub open spec fn narrow_from(
    extents: Seq<ShardExtent>,
    ranges: Seq<(usize, u32, u32)>,
    i: int,
) -> Result<Seq<ShardExtent>, LowLoweringError>
    decreases ranges.len() - i,
{
    if i >= ranges.len() {
        Ok(extents)
    } else {
        let (axis, start, end) = ranges[i];
        if axis < extents.len() && extents[axis as int].start <= start < end
            <= extents[axis as int].physical_end {
            narrow_from(
                extents.update(axis as int, narrowed(extents[axis as int], start, end)),
                ranges,
                i + 1,
            )
        } else {
            Err(LowLoweringError::InvalidOperatorPlan)
        }
    }
}

/// A shard restricted to a range on each of the named axes.
pub open spec fn narrow_view(
    shards: Seq<ShardModel>,
    id: LowShardId,
    ranges: Seq<(usize, u32, u32)>,
) -> Result<ViewModel, LowLoweringError> {
    match shard_of(shards, id) {
        Ok(shard) => match narrow_from(shard.extents, ranges, 0) {
            Ok(extents) => Ok(ViewModel { shard: id, extents }),
            Err(e) => Err(e),
        },
        Err(e) => Err(e),
    }
}

/// A shard without its padding.
pub open spec fn unpadded(extents: Seq<ShardExtent>) -> Seq<ShardExtent> {
    Seq::new(
        extents.len(),
        |i: int| ShardExtent { physical_end: extents[i].logical_end, ..extents[i] },
    )
}

pub fn without_padding(extents: &[ShardExtent]) -> (r: Vec<ShardExtent>)
    ensures
        r@ == unpadded(extents@),
{
    let mut r: Vec<ShardExtent> = Vec::new();
    let mut i: usize = 0;
    while i < extents.len()
        invariant
            i <= extents@.len(),
            r@.len() == i,
            forall|k: int| 0 <= k < i ==> r@[k] == unpadded(extents@)[k],
        decreases extents@.len() - i,
    {
        let extent: ShardExtent = extents[i];
        r.push(
            ShardExtent {
                axis: extent.axis,
                start: extent.start,
                logical_end: extent.logical_end,
                physical_end: extent.logical_end,
            },
        );
        i += 1;
    }
    assert(r@ =~= unpadded(extents@));
    r
}

/// Some axis of the rectangle ends in padding.
pub open spec fn has_padding(extents: Seq<ShardExtent>) -> bool {
    exists|i: int|
        0 <= i < extents.len() && (#[trigger] extents[i]).logical_end < extents[i].physical_end
}

impl LoweringState {
    pub fn shard(&self, id: LowShardId) -> (r: LowLoweringResult<&LowShard>)
        ensures
            match r {
                Ok(shard) => shard_of(self@.shards, id) == Ok::<ShardModel, LowLoweringError>(
                    shard@,
                ),
                Err(e) => shard_of(self@.shards, id) == Err::<ShardModel, LowLoweringError>(e),
            },
    {
        broadcast use group_deep;

        if (id.0 as usize) < self.shards.len() {
            Ok(&self.shards[id.0 as usize])
        } else {
            Err(LowLoweringError::InvalidOperatorPlan)
        }
    }

    pub fn push_shard(&mut self, shard: LowShard) -> (r: LowLoweringResult<LowShardId>)
        ensures
            gave(r, final(self)@, push_shard(old(self)@, shard@)),
    {
        broadcast use group_deep;

        let len = self.shards.len();
        if len > 0xffff_ffff {
            return Err(LowLoweringError::IdOverflow);
        }
        let id = LowShardId(len as u32);
        let mut shard = shard;
        shard.id = id;
        self.shards.push(shard);
        Ok(id)
    }

    pub fn redefine(&mut self, id: LowShardId, definition: ShardDefinition) -> (r:
        LowLoweringResult<()>)
        ensures
            did(r, final(self)@, redefine(old(self)@, id, definition)),
    {
        broadcast use group_deep;

        if (id.0 as usize) < self.shards.len() {
            let ghost before = self.shards@;
            self.shards[id.0 as usize].definition = definition;
            proof {
                let shard = self.shards@[id.0 as int];
                assert(self.shards@ =~= before.update(id.0 as int, shard));
                assert(shard@ == ShardModel { definition, ..before[id.0 as int]@ });
            }
            Ok(())
        } else {
            Err(LowLoweringError::InvalidOperatorPlan)
        }
    }

    /// The allocation that a shard finally stands for.
    pub fn storage_root(&self, shard: LowShardId) -> (r: LowShardId)
        ensures
            r == storage_root(self@.shards, shard),
    {
        broadcast use group_deep;

        let start = shard;
        let mut shard = shard;
        let mut remaining: usize = self.shards.len();
        // One alias step is always allowed, so that the count cannot overflow.
        if (shard.0 as usize) < self.shards.len() {
            match self.shards[shard.0 as usize].definition {
                ShardDefinition::Alias(source) => {
                    shard = source;
                },
                ShardDefinition::WritableAlias(source) => {
                    shard = source;
                },
                _ => {
                    return shard;
                },
            }
        } else {
            return shard;
        }
        while remaining > 0
            invariant
                remaining <= self.shards@.len(),
                storage_root(self@.shards, start) == root_within(
                    self@.shards,
                    shard,
                    remaining as nat,
                ),
            decreases remaining,
        {
            if (shard.0 as usize) < self.shards.len() {
                match self.shards[shard.0 as usize].definition {
                    ShardDefinition::Alias(source) => {
                        shard = source;
                    },
                    ShardDefinition::WritableAlias(source) => {
                        shard = source;
                    },
                    _ => {
                        return shard;
                    },
                }
            } else {
                return shard;
            }
            remaining -= 1;
        }
        shard
    }

    pub fn full_view(&self, shard: LowShardId) -> (r: LowLoweringResult<ShardView>)
        ensures
            found(r, full_view(self@.shards, shard)),
    {
        match self.shard(shard) {
            Ok(found) => Ok(ShardView { shard, extents: copy_all(found.extents.as_slice()) }),
            Err(e) => Err(e),
        }
    }

    /// Restricts a shard to a range on each of the named axes.
    pub fn narrow_view(&self, shard: LowShardId, ranges: &[(usize, u32, u32)]) -> (r:
        LowLoweringResult<ShardView>)
        ensures
            found(r, narrow_view(self@.shards, shard, ranges@)),
    {
        let mut extents = match self.shard(shard) {
            Ok(found) => copy_all(found.extents.as_slice()),
            Err(e) => {
                return Err(e);
            },
        };
        let ghost whole = extents@;
        let mut i: usize = 0;
        while i < ranges.len()
            invariant
                i <= ranges@.len(),
                narrow_from(whole, ranges@, 0) == narrow_from(extents@, ranges@, i as int),
                shard_of(self@.shards, shard) is Ok,
                shard_of(self@.shards, shard)->Ok_0.extents == whole,
            decreases ranges@.len() - i,
        {
            let (axis, start, end) = ranges[i];
            if axis >= extents.len() {
                return Err(LowLoweringError::InvalidOperatorPlan);
            }
            let extent: ShardExtent = extents[axis];
            if start < extent.start || end > extent.physical_end || start >= end {
                return Err(LowLoweringError::InvalidOperatorPlan);
            }
            let logical_end: u32 = if end <= extent.logical_end {
                end
            } else if extent.logical_end >= start {
                extent.logical_end
            } else {
                start
            };
            extents.set(
                axis,
                ShardExtent { axis: extent.axis, start, logical_end, physical_end: end },
            );
            i += 1;
        }
        Ok(ShardView { shard, extents })
    }

    /// Whether a shard ends in padding on some axis.
    pub fn shard_has_padding(&self, shard: LowShardId) -> (r: LowLoweringResult<bool>)
        ensures
            match r {
                Ok(padded) => shard_of(self@.shards, shard) is Ok && padded == has_padding(
                    shard_of(self@.shards, shard)->Ok_0.extents,
                ),
                Err(e) => shard_of(self@.shards, shard) == Err::<ShardModel, LowLoweringError>(e),
            },
    {
        let found = self.shard(shard)?;
        let mut i: usize = 0;
        while i < found.extents.len()
            invariant
                i <= found.extents@.len(),
                forall|k: int|
                    0 <= k < i ==> (#[trigger] found.extents@[k]).logical_end
                        >= found.extents@[k].physical_end,
                shard_of(self@.shards, shard) == Ok::<ShardModel, LowLoweringError>(found@),
            decreases found.extents@.len() - i,
        {
            if found.extents[i].logical_end < found.extents[i].physical_end {
                assert(found@.extents[i as int].logical_end < found@.extents[i as int].physical_end);
                return Ok(true);
            }
            i += 1;
        }
        Ok(false)
    }
}

// ---------------------------------------------------------------- tile work

/// Appends an entry to the work of one tile. A tile outside the schedule makes
/// the plan invalid.
pub open spec fn push_work(s: StateModel, tile: u16, work: TileWork) -> Step {
    if tile < s.tiles.len() {
        let list = s.tiles[tile as int];
        Ok(
            StateModel {
                tiles: s.tiles.update(
                    tile as int,
                    WorkListModel { work: list.work.push(work), ..list },
                ),
                ..s
            },
        )
    } else {
        Err(LowLoweringError::InvalidOperatorPlan)
    }
}

/// Every tile's list with one more entry.
pub open spec fn push_everywhere(tiles: Seq<WorkListModel>, work: TileWork) -> Seq<
    WorkListModel,
> {
    Seq::new(
        tiles.len(),
        |i: int| WorkListModel { work: tiles[i].work.push(work), ..tiles[i] },
    )
}

/// Schedules a copy inside one tile.
pub open spec fn append_local_copy(s: StateModel, tile: u16, copy: LocalCopy) -> Step {
    if id_free(s.local_copies.len()) {
        push_work(
            StateModel { local_copies: s.local_copies.push(copy), ..s },
            tile,
            TileWork::LocalCopy(LocalCopyId(s.local_copies.len() as u32)),
        )
    } else {
        Err(LowLoweringError::IdOverflow)
    }
}

/// Schedules the copies from position `i` on, in order.
pub open spec fn append_copies_from(s: StateModel, copies: Seq<(u16, LocalCopy)>, i: int) -> Step
    decreases copies.len() - i,
{
    if i >= copies.len() {
        Ok(s)
    } else {
        match append_local_copy(s, copies[i].0, copies[i].1) {
            Ok(next) => append_copies_from(next, copies, i + 1),
            Err(e) => Err(e),
        }
    }
}

/// Schedules a repeat on one tile.
pub open spec fn append_repeat(s: StateModel, tile: u16, repeat: RepeatModel) -> Step {
    if id_free(s.repeat_runs.len()) {
        push_work(
            StateModel { repeat_runs: s.repeat_runs.push(repeat), ..s },
            tile,
            TileWork::Repeat(RepeatRunId(s.repeat_runs.len() as u32)),
        )
    } else {
        Err(LowLoweringError::IdOverflow)
    }
}

/// The metadata list with an entry for `metadata`, added only if it is new.
pub open spec fn interned(list: Seq<MetadataModel>, metadata: MetadataModel) -> Seq<
    MetadataModel,
> {
    if list.contains(metadata) {
        list
    } else {
        list.push(metadata)
    }
}

/// Schedules one kernel run on one tile.
pub open spec fn append_single_kernel(s: StateModel, tile: u16, run: RunModel) -> Step {
    if id_free(s.kernel_runs.len()) {
        push_work(
            StateModel {
                kernel_metadata: interned(s.kernel_metadata, run.metadata),
                kernel_runs: s.kernel_runs.push(run),
                ..s
            },
            tile,
            TileWork::Kernel(KernelRunId(s.kernel_runs.len() as u32)),
        )
    } else {
        Err(LowLoweringError::IdOverflow)
    }
}

/// Schedules the runs from position `i` on, in order, on one tile.
pub open spec fn append_single_kernels_from(
    s: StateModel,
    tile: u16,
    runs: Seq<RunModel>,
    i: int,
) -> Step
    decreases runs.len() - i,
{
    if i >= runs.len() {
        Ok(s)
    } else {
        match append_single_kernel(s, tile, runs[i]) {
            Ok(next) => append_single_kernels_from(next, tile, runs, i + 1),
            Err(e) => Err(e),
        }
    }
}

impl LoweringState {
    fn push_work(&mut self, tile: u16, work: TileWork) -> (r: LowLoweringResult<()>)
        ensures
            did(r, final(self)@, push_work(old(self)@, tile, work)),
    {
        broadcast use group_deep;

        if (tile as usize) < self.tiles.len() {
            let ghost before = self.tiles@;
            self.tiles[tile as usize].work.push(work);
            proof {
                let list = self.tiles@[tile as int];
                assert(self.tiles@ =~= before.update(tile as int, list));
                let old_list = before[tile as int]@;
                assert(list@ == WorkListModel { work: old_list.work.push(work), ..old_list });
            }
            Ok(())
        } else {
            Err(LowLoweringError::InvalidOperatorPlan)
        }
    }

    pub fn append_local_copy(&mut self, tile: u16, copy: LocalCopy) -> (r: LowLoweringResult<()>)
        ensures
            did(r, final(self)@, append_local_copy(old(self)@, tile, copy)),
    {
        let len = self.local_copies.len();
        if len > 0xffff_ffff {
            return Err(LowLoweringError::IdOverflow);
        }
        self.local_copies.push(copy);
        self.push_work(tile, TileWork::LocalCopy(LocalCopyId(len as u32)))
    }

    pub fn append_copies(&mut self, copies: &Vec<(u16, LocalCopy)>) -> (r: LowLoweringResult<()>)
        ensures
            did(r, final(self)@, append_copies_from(old(self)@, copies@, 0)),
    {
        let ghost start = self@;
        let mut i: usize = 0;
        while i < copies.len()
            invariant
                i <= copies@.len(),
                append_copies_from(start, copies@, 0) == append_copies_from(
                    self@,
                    copies@,
                    i as int,
                ),
            decreases copies@.len() - i,
        {
            let (tile, copy) = copies[i];
            self.append_local_copy(tile, copy)?;
            i += 1;
        }
        Ok(())
    }

    pub fn append_repeat(&mut self, tile: u16, repeat: RepeatRun) -> (r: LowLoweringResult<()>)
        ensures
            did(r, final(self)@, append_repeat(old(self)@, tile, repeat@)),
    {
        broadcast use group_deep;

        let len = self.repeat_runs.len();
        if len > 0xffff_ffff {
            return Err(LowLoweringError::IdOverflow);
        }
        self.repeat_runs.push(repeat);
        self.push_work(tile, TileWork::Repeat(RepeatRunId(len as u32)))
    }

    pub fn append_single_kernel(&mut self, tile: u16, run: KernelRun) -> (r: LowLoweringResult<()>)
        ensures
            did(r, final(self)@, append_single_kernel(old(self)@, tile, run@)),
    {
        broadcast use group_deep;

        let ghost metadata = run@.metadata;
        let ghost known = deep(self.kernel_metadata@);
        let ghost before = self@;
        let ghost wanted = run@;
        let mut run = run;
        let mut found = false;
        let mut i: usize = 0;
        while i < self.kernel_metadata.len() && !found
            invariant
                i <= self.kernel_metadata@.len(),
                self@ == before,
                run@ == wanted,
                found ==> known.contains(metadata),
                !found ==> forall|k: int| 0 <= k < i ==> known[k] != metadata,
            decreases self.kernel_metadata@.len() - i,
        {
            if self.kernel_metadata[i].same(&run.metadata) {
                assert(known[i as int] == metadata);
                run.metadata = self.kernel_metadata[i].clone();
                found = true;
            } else {
                assert(known[i as int] != metadata);
            }
            i += 1;
        }
        if !found {
            self.kernel_metadata.push(run.metadata.clone());
        }
        assert(deep(self.kernel_metadata@) == interned(known, metadata));
        let len = self.kernel_runs.len();
        if len > 0xffff_ffff {
            return Err(LowLoweringError::IdOverflow);
        }
        self.kernel_runs.push(run);
        self.push_work(tile, TileWork::Kernel(KernelRunId(len as u32)))
    }
}

} // verus!
