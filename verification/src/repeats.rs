//! Repeated regions: how carried, invariant and iterated values bind to the
//! arguments of the body on one tile.

use crate::aliasing::{
    body_storage_requirement, repeat_yield_can_alias, storage_requirement, stride_of,
    yield_can_alias,
};
use crate::lookup::{corresponding_shard, find_local_shard};
use crate::low::{
    IteratedModel, LowLoweringError, LowLoweringResult, LowShardId, RepeatCarried,
    RepeatInvariant, RepeatIterated, RepeatModel, RepeatRun, ShardDefinition, ShardModel,
    TileWorkList, WorkListModel, WorkProvenance, WorkReason,
};
use crate::mid::{MidOperation, MidRepeat, MidValueId};
use crate::model::{copy_all, deep, group_deep};
use crate::state::{
    append_repeat, did, found_all, gave, redefine, shard_of, LoweringState, StateModel, Step,
    StepWith,
};
use vstd::prelude::*;

verus! {

// ---------------------------------------------------------------- shape

/// Inputs, arguments, yields and results of a repeat fit together.
pub open spec fn is_consistent(operation: MidOperation, repeat: MidRepeat) -> bool {
    let fixed = repeat.carried_inputs + repeat.invariant_inputs;
    &&& operation.inputs@.len() == fixed
    &&& operation.results@.len() == repeat.carried_inputs
    &&& repeat.body.arguments@.len() == fixed + repeat.iterated_inputs@.len()
    &&& repeat.body.yields@.len() == repeat.carried_inputs
    &&& forall|i: int|
        0 <= i < repeat.iterated_inputs@.len() ==> (#[trigger] repeat.iterated_inputs@[i])@.len()
            == repeat.count
}

/// The first carried value from `i` on whose yield cannot take its storage.
pub open spec fn not_in_place_from(repeat: MidRepeat, i: int) -> Option<int>
    decreases repeat.carried_inputs - i,
{
    if i >= repeat.carried_inputs {
        None
    } else if !yield_can_alias(
        repeat.body.operations@,
        repeat.body.yields@[i],
        repeat.body.arguments@[i],
    ) {
        Some(i)
    } else {
        not_in_place_from(repeat, i + 1)
    }
}

// ---------------------------------------------------------------- carried

/// Lets the parts of one carried value on a tile share storage: argument and
/// result take that of the initial value, the yielded value that of the
/// argument.
pub open spec fn bind_carried(
    s: StateModel,
    operation: MidOperation,
    repeat: MidRepeat,
    index: int,
    argument: LowShardId,
) -> StepWith<RepeatCarried> {
    match corresponding_shard(s, operation.inputs@[index], argument) {
        Err(e) => Err(e),
        Ok(initial) => match corresponding_shard(s, repeat.body.yields@[index], argument) {
            Err(e) => Err(e),
            Ok(yielded) => match corresponding_shard(s, operation.results@[index], argument) {
                Err(e) => Err(e),
                Ok(result) => match redefine(s, argument, ShardDefinition::Alias(initial)) {
                    Err(e) => Err(e),
                    Ok(a) => match (if yielded != argument {
                        redefine(a, yielded, ShardDefinition::WritableAlias(argument))
                    } else {
                        Ok(a)
                    }) {
                        Err(e) => Err(e),
                        Ok(b) => match redefine(b, result, ShardDefinition::Alias(initial)) {
                            Err(e) => Err(e),
                            Ok(c) => Ok((c, RepeatCarried { initial, argument, yielded, result })),
                        },
                    },
                },
            },
        },
    }
}

/// `done` followed by the carried values from `index` on that the tile holds.
pub open spec fn carried_from(
    s: StateModel,
    operation: MidOperation,
    repeat: MidRepeat,
    tile: u16,
    index: int,
    done: Seq<RepeatCarried>,
) -> StepWith<Seq<RepeatCarried>>
    decreases repeat.carried_inputs - index,
{
    if index >= repeat.carried_inputs {
        Ok((s, done))
    } else {
        match find_local_shard(s, repeat.body.arguments@[index], tile) {
            Err(e) => Err(e),
            Ok(None) => carried_from(s, operation, repeat, tile, index + 1, done),
            Ok(Some(argument)) => match bind_carried(s, operation, repeat, index, argument) {
                Err(e) => Err(e),
                Ok((next, carried)) => carried_from(
                    next,
                    operation,
                    repeat,
                    tile,
                    index + 1,
                    done.push(carried),
                ),
            },
        }
    }
}

// ---------------------------------------------------------------- invariant

/// `done` followed by the invariant values from `index` on that the tile holds.
pub open spec fn invariants_from(
    s: StateModel,
    operation: MidOperation,
    repeat: MidRepeat,
    tile: u16,
    index: int,
    done: Seq<RepeatInvariant>,
) -> Result<Seq<RepeatInvariant>, LowLoweringError>
    decreases repeat.invariant_inputs - index,
{
    let position = repeat.carried_inputs + index;
    if index >= repeat.invariant_inputs {
        Ok(done)
    } else {
        match find_local_shard(s, repeat.body.arguments@[position], tile) {
            Err(e) => Err(e),
            Ok(None) => invariants_from(s, operation, repeat, tile, index + 1, done),
            Ok(Some(argument)) => match corresponding_shard(
                s,
                operation.inputs@[position],
                argument,
            ) {
                Err(e) => Err(e),
                Ok(input) => invariants_from(
                    s,
                    operation,
                    repeat,
                    tile,
                    index + 1,
                    done.push(RepeatInvariant { input, argument }),
                ),
            },
        }
    }
}

// ---------------------------------------------------------------- iterated

/// `done` followed by the parts of the values from `i` on that correspond to
/// the argument.
pub open spec fn blocks_from(
    s: StateModel,
    values: Seq<MidValueId>,
    argument: LowShardId,
    i: int,
    done: Seq<LowShardId>,
) -> Result<Seq<LowShardId>, LowLoweringError>
    decreases values.len() - i,
{
    if i >= values.len() {
        Ok(done)
    } else {
        match corresponding_shard(s, values[i], argument) {
            Err(e) => Err(e),
            Ok(id) => blocks_from(s, values, argument, i + 1, done.push(id)),
        }
    }
}

/// `done` followed by the strides of the shards from `i` on.
pub open spec fn strides_from(
    shards: Seq<ShardModel>,
    ids: Seq<LowShardId>,
    requirement: (u32, u32),
    i: int,
    done: Seq<u32>,
) -> Result<Seq<u32>, LowLoweringError>
    decreases ids.len() - i,
{
    if i >= ids.len() {
        Ok(done)
    } else {
        match shard_of(shards, ids[i]) {
            Err(e) => Err(e),
            Ok(shard) => match stride_of(shard, requirement.0, requirement.1) {
                Err(e) => Err(e),
                Ok(stride) => strides_from(shards, ids, requirement, i + 1, done.push(stride)),
            },
        }
    }
}

/// There is a stride, and it is the same for all.
pub open spec fn evenly_spaced(strides: Seq<u32>) -> bool {
    &&& strides.len() > 0
    &&& forall|i: int| 0 <= i < strides.len() ==> #[trigger] strides[i] == strides[0]
}

/// One block for each iteration, all at the same distance.
pub open spec fn bind_iterated(
    s: StateModel,
    repeat: MidRepeat,
    index: int,
    argument: LowShardId,
) -> Result<IteratedModel, LowLoweringError> {
    let position = repeat.carried_inputs + repeat.invariant_inputs + index;
    let requirement = storage_requirement(
        repeat.body.operations@,
        repeat.body.arguments@[position],
    );
    match blocks_from(s, repeat.iterated_inputs@[index]@, argument, 0, Seq::empty()) {
        Err(e) => Err(e),
        Ok(inputs) => match strides_from(s.shards, inputs, requirement, 0, Seq::empty()) {
            Err(e) => Err(e),
            Ok(strides) => if evenly_spaced(strides) {
                Ok(
                    IteratedModel {
                        inputs,
                        argument,
                        stride_bytes: strides[0],
                        alignment: requirement.0,
                    },
                )
            } else {
                Err(LowLoweringError::InvalidIteratedBlocks(index as usize))
            },
        },
    }
}

/// `done` followed by the iterated values from `index` on that the tile holds.
pub open spec fn iterated_from(
    s: StateModel,
    repeat: MidRepeat,
    tile: u16,
    index: int,
    done: Seq<IteratedModel>,
) -> Result<Seq<IteratedModel>, LowLoweringError>
    decreases repeat.iterated_inputs@.len() - index,
{
    let position = repeat.carried_inputs + repeat.invariant_inputs + index;
    if index >= repeat.iterated_inputs@.len() {
        Ok(done)
    } else {
        match find_local_shard(s, repeat.body.arguments@[position], tile) {
            Err(e) => Err(e),
            Ok(None) => iterated_from(s, repeat, tile, index + 1, done),
            Ok(Some(argument)) => match bind_iterated(s, repeat, index, argument) {
                Err(e) => Err(e),
                Ok(iterated) => iterated_from(s, repeat, tile, index + 1, done.push(iterated)),
            },
        }
    }
}

// ---------------------------------------------------------------- tiles

/// The value that an operation is known by.
pub open spec fn first_result(operation: MidOperation) -> Option<MidValueId> {
    if operation.results@.len() > 0 {
        Some(operation.results@[0])
    } else {
        None
    }
}

/// Schedules a repeat on one tile.
pub open spec fn append_tile_repeat(
    s: StateModel,
    operation: MidOperation,
    repeat: MidRepeat,
    body: Seq<WorkListModel>,
    tile: u16,
) -> Step {
    match carried_from(s, operation, repeat, tile, 0, Seq::empty()) {
        Err(e) => Err(e),
        Ok((next, carried)) => match invariants_from(
            next,
            operation,
            repeat,
            tile,
            0,
            Seq::empty(),
        ) {
            Err(e) => Err(e),
            Ok(invariants) => match iterated_from(next, repeat, tile, 0, Seq::empty()) {
                Err(e) => Err(e),
                Ok(iterated) => if tile >= body.len() {
                    Err(LowLoweringError::InvalidRepeat)
                } else {
                    append_repeat(
                        next,
                        tile,
                        RepeatModel {
                            provenance: WorkProvenance {
                                operation: operation.source,
                                value: first_result(operation),
                                reason: WorkReason::Repeat,
                            },
                            count: repeat.count,
                            carried,
                            invariants,
                            iterated,
                            body: body[tile as int],
                        },
                    )
                },
            },
        },
    }
}

/// Schedules a repeat on the tiles from `tile` on, below `count`.
pub open spec fn append_tile_repeats_from(
    s: StateModel,
    operation: MidOperation,
    repeat: MidRepeat,
    body: Seq<WorkListModel>,
    count: u16,
    tile: int,
) -> Step
    decreases count - tile,
{
    if tile >= count {
        Ok(s)
    } else {
        match append_tile_repeat(s, operation, repeat, body, tile as u16) {
            Err(e) => Err(e),
            Ok(next) => append_tile_repeats_from(next, operation, repeat, body, count, tile + 1),
        }
    }
}

// ---------------------------------------------------------------- carrying out

/// Whether inputs, arguments, yields and results of a repeat fit together.
pub fn fits_together(operation: &MidOperation, repeat: &MidRepeat) -> (r: bool)
    ensures
        r == is_consistent(*operation, *repeat),
{
    let fixed: usize = match repeat.carried_inputs.checked_add(repeat.invariant_inputs) {
        Some(fixed) => fixed,
        None => {
            assert(operation.inputs.len() == operation.inputs@.len());
            return false;
        },
    };
    let all: usize = match fixed.checked_add(repeat.iterated_inputs.len()) {
        Some(all) => all,
        None => {
            assert(repeat.body.arguments.len() == repeat.body.arguments@.len());
            return false;
        },
    };
    if operation.inputs.len() != fixed || operation.results.len() != repeat.carried_inputs
        || repeat.body.arguments.len() != all || repeat.body.yields.len()
        != repeat.carried_inputs {
        return false;
    }
    let mut i: usize = 0;
    while i < repeat.iterated_inputs.len()
        invariant
            i <= repeat.iterated_inputs@.len(),
            forall|j: int|
                0 <= j < i ==> (#[trigger] repeat.iterated_inputs@[j])@.len() == repeat.count,
        decreases repeat.iterated_inputs@.len() - i,
    {
        if repeat.iterated_inputs[i].len() as u64 != repeat.count as u64 {
            return false;
        }
        i += 1;
    }
    true
}

/// The first carried value whose yield cannot take its storage.
pub fn find_not_in_place(operation: &MidOperation, repeat: &MidRepeat) -> (r: Option<usize>)
    requires
        is_consistent(*operation, *repeat),
    ensures
        match r {
            Some(i) => not_in_place_from(*repeat, 0) == Some(i as int),
            None => not_in_place_from(*repeat, 0) is None,
        },
{
    let mut i: usize = 0;
    while i < repeat.carried_inputs
        invariant
            i <= repeat.carried_inputs,
            not_in_place_from(*repeat, 0) == not_in_place_from(*repeat, i as int),
        decreases repeat.carried_inputs - i,
    {
        if !repeat_yield_can_alias(
            repeat.body.yields[i],
            repeat.body.arguments[i],
            &repeat.body.operations,
        ) {
            return Some(i);
        }
        i += 1;
    }
    None
}

fn are_evenly_spaced(strides: &Vec<u32>) -> (r: bool)
    ensures
        r == evenly_spaced(strides@),
{
    if strides.len() == 0 {
        return false;
    }
    let mut i: usize = 0;
    while i < strides.len()
        invariant
            i <= strides@.len(),
            forall|j: int| 0 <= j < i ==> #[trigger] strides@[j] == strides@[0],
        decreases strides@.len() - i,
    {
        if strides[i] != strides[0] {
            return false;
        }
        i += 1;
    }
    true
}

/// `r` has the expected elements, or is the expected error.
pub open spec fn listed<T>(r: LowLoweringResult<Vec<T>>, expected: Result<
    Seq<T>,
    LowLoweringError,
>) -> bool {
    match r {
        Ok(list) => expected == Ok::<Seq<T>, LowLoweringError>(list@),
        Err(e) => expected == Err::<Seq<T>, LowLoweringError>(e),
    }
}

impl LoweringState {
    fn bind_carried(
        &mut self,
        operation: &MidOperation,
        repeat: &MidRepeat,
        index: usize,
        argument: LowShardId,
    ) -> (r: LowLoweringResult<RepeatCarried>)
        requires
            is_consistent(*operation, *repeat),
            index < repeat.carried_inputs,
        ensures
            gave(
                r,
                final(self)@,
                bind_carried(old(self)@, *operation, *repeat, index as int, argument),
            ),
    {
        let initial = self.corresponding_shard(operation.inputs[index], argument)?;
        let yielded = self.corresponding_shard(repeat.body.yields[index], argument)?;
        let result = self.corresponding_shard(operation.results[index], argument)?;
        self.redefine(argument, ShardDefinition::Alias(initial))?;
        if yielded != argument {
            self.redefine(yielded, ShardDefinition::WritableAlias(argument))?;
        }
        self.redefine(result, ShardDefinition::Alias(initial))?;
        Ok(RepeatCarried { initial, argument, yielded, result })
    }

    fn carried_on(&mut self, operation: &MidOperation, repeat: &MidRepeat, tile: u16) -> (r:
        LowLoweringResult<Vec<RepeatCarried>>)
        requires
            is_consistent(*operation, *repeat),
        ensures
            match r {
                Ok(carried) => carried_from(
                    old(self)@,
                    *operation,
                    *repeat,
                    tile,
                    0,
                    Seq::empty(),
                ) == Ok::<(StateModel, Seq<RepeatCarried>), LowLoweringError>(
                    (final(self)@, carried@),
                ),
                Err(e) => carried_from(old(self)@, *operation, *repeat, tile, 0, Seq::empty())
                    == Err::<(StateModel, Seq<RepeatCarried>), LowLoweringError>(e),
            },
    {
        let ghost start = self@;
        let mut carried: Vec<RepeatCarried> = Vec::new();
        assert(carried@ =~= Seq::<RepeatCarried>::empty());
        let mut index: usize = 0;
        while index < repeat.carried_inputs
            invariant
                index <= repeat.carried_inputs,
                carried_from(start, *operation, *repeat, tile, 0, Seq::empty()) == carried_from(
                    self@,
                    *operation,
                    *repeat,
                    tile,
                    index as int,
                    carried@,
                ),
            decreases repeat.carried_inputs - index,
        {
            match self.find_local_shard(repeat.body.arguments[index], tile)? {
                None => {},
                Some(argument) => {
                    let bound = self.bind_carried(operation, repeat, index, argument)?;
                    carried.push(bound);
                },
            }
            index += 1;
        }
        Ok(carried)
    }

    fn invariants_on(&self, operation: &MidOperation, repeat: &MidRepeat, tile: u16) -> (r:
        LowLoweringResult<Vec<RepeatInvariant>>)
        requires
            is_consistent(*operation, *repeat),
        ensures
            listed(r, invariants_from(self@, *operation, *repeat, tile, 0, Seq::empty())),
    {
        let mut invariants: Vec<RepeatInvariant> = Vec::new();
        assert(invariants@ =~= Seq::<RepeatInvariant>::empty());
        assert(operation.inputs.len() == operation.inputs@.len());
        let mut index: usize = 0;
        while index < repeat.invariant_inputs
            invariant
                index <= repeat.invariant_inputs,
                invariants_from(self@, *operation, *repeat, tile, 0, Seq::empty())
                    == invariants_from(
                    self@,
                    *operation,
                    *repeat,
                    tile,
                    index as int,
                    invariants@,
                ),
            decreases repeat.invariant_inputs - index,
        {
            let position: usize = repeat.carried_inputs + index;
            match self.find_local_shard(repeat.body.arguments[position], tile)? {
                None => {},
                Some(argument) => {
                    let input = self.corresponding_shard(operation.inputs[position], argument)?;
                    invariants.push(RepeatInvariant { input, argument });
                },
            }
            index += 1;
        }
        Ok(invariants)
    }

    fn blocks_of(&self, values: &Vec<MidValueId>, argument: LowShardId) -> (r: LowLoweringResult<
        Vec<LowShardId>,
    >)
        ensures
            listed(r, blocks_from(self@, values@, argument, 0, Seq::empty())),
    {
        let mut blocks: Vec<LowShardId> = Vec::new();
        assert(blocks@ =~= Seq::<LowShardId>::empty());
        let mut i: usize = 0;
        while i < values.len()
            invariant
                i <= values@.len(),
                blocks_from(self@, values@, argument, 0, Seq::empty()) == blocks_from(
                    self@,
                    values@,
                    argument,
                    i as int,
                    blocks@,
                ),
            decreases values@.len() - i,
        {
            let id = self.corresponding_shard(values[i], argument)?;
            blocks.push(id);
            i += 1;
        }
        Ok(blocks)
    }

    fn strides_of(&self, ids: &Vec<LowShardId>, requirement: (u32, u32)) -> (r: LowLoweringResult<
        Vec<u32>,
    >)
        ensures
            listed(r, strides_from(self@.shards, ids@, requirement, 0, Seq::empty())),
    {
        let mut strides: Vec<u32> = Vec::new();
        assert(strides@ =~= Seq::<u32>::empty());
        let mut i: usize = 0;
        while i < ids.len()
            invariant
                i <= ids@.len(),
                strides_from(self@.shards, ids@, requirement, 0, Seq::empty()) == strides_from(
                    self@.shards,
                    ids@,
                    requirement,
                    i as int,
                    strides@,
                ),
            decreases ids@.len() - i,
        {
            let stride: u32 = self.shard_stride(ids[i], requirement.0, requirement.1)?;
            strides.push(stride);
            i += 1;
        }
        Ok(strides)
    }

    fn bind_iterated(
        &self,
        operation: &MidOperation,
        repeat: &MidRepeat,
        index: usize,
        argument: LowShardId,
    ) -> (r: LowLoweringResult<RepeatIterated>)
        requires
            is_consistent(*operation, *repeat),
            index < repeat.iterated_inputs@.len(),
        ensures
            match r {
                Ok(iterated) => bind_iterated(self@, *repeat, index as int, argument) == Ok::<
                    IteratedModel,
                    LowLoweringError,
                >(iterated@),
                Err(e) => bind_iterated(self@, *repeat, index as int, argument) == Err::<
                    IteratedModel,
                    LowLoweringError,
                >(e),
            },
    {
        assert(repeat.body.arguments.len() == repeat.body.arguments@.len());
        let position: usize = repeat.carried_inputs + repeat.invariant_inputs + index;
        let requirement = body_storage_requirement(
            repeat.body.arguments[position],
            &repeat.body.operations,
        );
        let inputs = self.blocks_of(&repeat.iterated_inputs[index], argument)?;
        let strides = self.strides_of(&inputs, requirement)?;
        if !are_evenly_spaced(&strides) {
            return Err(LowLoweringError::InvalidIteratedBlocks(index));
        }
        Ok(
            RepeatIterated {
                inputs,
                argument,
                stride_bytes: strides[0],
                alignment: requirement.0,
            },
        )
    }

    fn iterated_on(&self, operation: &MidOperation, repeat: &MidRepeat, tile: u16) -> (r:
        LowLoweringResult<Vec<RepeatIterated>>)
        requires
            is_consistent(*operation, *repeat),
        ensures
            found_all(r, iterated_from(self@, *repeat, tile, 0, Seq::empty())),
    {
        broadcast use group_deep;

        assert(repeat.body.arguments.len() == repeat.body.arguments@.len());
        let mut iterated: Vec<RepeatIterated> = Vec::new();
        assert(deep(iterated@) =~= Seq::<IteratedModel>::empty());
        let mut index: usize = 0;
        while index < repeat.iterated_inputs.len()
            invariant
                index <= repeat.iterated_inputs@.len(),
                iterated_from(self@, *repeat, tile, 0, Seq::empty()) == iterated_from(
                    self@,
                    *repeat,
                    tile,
                    index as int,
                    deep(iterated@),
                ),
            decreases repeat.iterated_inputs@.len() - index,
        {
            let position: usize = repeat.carried_inputs + repeat.invariant_inputs + index;
            match self.find_local_shard(repeat.body.arguments[position], tile)? {
                None => {},
                Some(argument) => {
                    let bound = self.bind_iterated(operation, repeat, index, argument)?;
                    iterated.push(bound);
                },
            }
            index += 1;
        }
        Ok(iterated)
    }

    fn append_tile_repeat(
        &mut self,
        operation: &MidOperation,
        repeat: &MidRepeat,
        body: &Vec<TileWorkList>,
        tile: u16,
    ) -> (r: LowLoweringResult<()>)
        requires
            is_consistent(*operation, *repeat),
        ensures
            did(
                r,
                final(self)@,
                append_tile_repeat(old(self)@, *operation, *repeat, deep(body@), tile),
            ),
    {
        broadcast use group_deep;

        let carried = self.carried_on(operation, repeat, tile)?;
        let invariants = self.invariants_on(operation, repeat, tile)?;
        let iterated = self.iterated_on(operation, repeat, tile)?;
        if tile as usize >= body.len() {
            return Err(LowLoweringError::InvalidRepeat);
        }
        assert(deep(body@)[tile as int] == body@[tile as int]@);
        let value = if operation.results.len() > 0 {
            Some(operation.results[0])
        } else {
            None
        };
        let own = &body[tile as usize];
        let run = RepeatRun {
            provenance: WorkProvenance {
                operation: operation.source,
                value,
                reason: WorkReason::Repeat,
            },
            count: repeat.count,
            carried,
            invariants,
            iterated,
            body: Box::new(TileWorkList { tile: own.tile, work: copy_all(own.work.as_slice()) }),
        };
        self.append_repeat(tile, run)
    }

    /// Schedules a repeat on every tile.
    pub fn append_tile_repeats(
        &mut self,
        operation: &MidOperation,
        repeat: &MidRepeat,
        body: &Vec<TileWorkList>,
    ) -> (r: LowLoweringResult<()>)
        requires
            is_consistent(*operation, *repeat),
        ensures
            did(
                r,
                final(self)@,
                append_tile_repeats_from(
                    old(self)@,
                    *operation,
                    *repeat,
                    deep(body@),
                    old(self)@.tile_count,
                    0,
                ),
            ),
    {
        let count: u16 = self.tile_count;
        let ghost start = self@;
        let mut tile: u16 = 0;
        while tile < count
            invariant
                tile <= count,
                append_tile_repeats_from(start, *operation, *repeat, deep(body@), count, 0)
                    == append_tile_repeats_from(
                    self@,
                    *operation,
                    *repeat,
                    deep(body@),
                    count,
                    tile as int,
                ),
            decreases count - tile,
        {
            self.append_tile_repeat(operation, repeat, body, tile)?;
            tile += 1;
        }
        Ok(())
    }
}

} // verus!
