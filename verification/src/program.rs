//! Whole programs.

use crate::lookup::value_shards;
use crate::low::{
    InputModel, LocalCopy, LowInput, LowLoweringError, LowLoweringResult, LowProgram, LowValue,
    PhaseModel, RepeatModel, RunModel, ShardModel, TileWorkList, ValueModel, WorkListModel,
};
use crate::mid::{MidGraph, MidInput, MidValue, MidValueId, PipelineConfig};
use crate::model::{deep, group_deep};
use crate::placement::initial_state;
use crate::region::lower_region;
use crate::state::{found_all, LoweringState, StateModel};
use crate::target::Target;
use crate::schedule::{is_sound, leads_somewhere, list_leads};
use crate::schedule_regions::{lemma_lowered_programs_are_sound, meets_all_phases, schedule_of};
use vstd::prelude::*;

verus! {

/// Abstract value of a [`LowProgram`].
pub struct ProgramModel {
    pub tile_count: u16,
    pub shards: Seq<ShardModel>,
    pub exchange_phases: Seq<PhaseModel>,
    pub inputs: Seq<InputModel>,
    pub tiles: Seq<WorkListModel>,
    pub kernel_runs: Seq<RunModel>,
    pub local_copies: Seq<LocalCopy>,
    pub repeat_runs: Seq<RepeatModel>,
    pub values: Seq<ValueModel>,
    pub outputs: Seq<ValueModel>,
}

impl View for LowProgram {
    type V = ProgramModel;

    open spec fn view(&self) -> ProgramModel {
        ProgramModel {
            tile_count: self.tile_count,
            shards: deep(self.shards@),
            exchange_phases: deep(self.exchange_phases@),
            inputs: deep(self.inputs@),
            tiles: deep(self.tiles@),
            kernel_runs: deep(self.kernel_runs@),
            local_copies: self.local_copies@,
            repeat_runs: deep(self.repeat_runs@),
            values: deep(self.values@),
            outputs: deep(self.outputs@),
        }
    }
}

/// `done` followed by the inputs from `i` on with their shards.
pub open spec fn inputs_from(s: StateModel, inputs: Seq<MidInput>, i: int, done: Seq<InputModel>) -> Result<
    Seq<InputModel>,
    LowLoweringError,
>
    decreases inputs.len() - i,
{
    if i >= inputs.len() {
        Ok(done)
    } else {
        match value_shards(s, inputs[i].value) {
            Err(e) => Err(e),
            Ok(shards) => inputs_from(
                s,
                inputs,
                i + 1,
                done.push(
                    InputModel {
                        name: inputs[i].name@,
                        kind: inputs[i].kind,
                        value: inputs[i].value,
                        shards,
                    },
                ),
            ),
        }
    }
}

/// `done` followed by the outputs from `i` on with their shards.
pub open spec fn outputs_from(
    s: StateModel,
    outputs: Seq<MidValueId>,
    i: int,
    done: Seq<ValueModel>,
) -> Result<Seq<ValueModel>, LowLoweringError>
    decreases outputs.len() - i,
{
    if i >= outputs.len() {
        Ok(done)
    } else {
        match value_shards(s, outputs[i]) {
            Err(e) => Err(e),
            Ok(shards) => outputs_from(
                s,
                outputs,
                i + 1,
                done.push(ValueModel { value: outputs[i], shards }),
            ),
        }
    }
}

/// `done` followed by the values from `v` on that have shards.
pub open spec fn values_from(s: StateModel, values: Seq<MidValue>, v: int, done: Seq<ValueModel>) -> Seq<
    ValueModel,
>
    decreases values.len() - v,
{
    if v >= values.len() {
        done
    } else {
        match value_shards(s, values[v].id) {
            Err(_) => values_from(s, values, v + 1, done),
            Ok(shards) => values_from(
                s,
                values,
                v + 1,
                done.push(ValueModel { value: values[v].id, shards }),
            ),
        }
    }
}

/// The program that a lowered schedule amounts to.
pub open spec fn finished(s: StateModel, graph: MidGraph, tile_count: u16) -> Result<
    ProgramModel,
    LowLoweringError,
> {
    match inputs_from(s, graph.inputs@, 0, Seq::empty()) {
        Err(e) => Err(e),
        Ok(inputs) => match outputs_from(s, graph.outputs@, 0, Seq::empty()) {
            Err(e) => Err(e),
            Ok(outputs) => Ok(
                ProgramModel {
                    tile_count,
                    shards: s.shards,
                    exchange_phases: s.phases,
                    inputs,
                    tiles: s.tiles,
                    kernel_runs: s.kernel_runs,
                    local_copies: s.local_copies,
                    repeat_runs: s.repeat_runs,
                    values: values_from(s, graph.values@, 0, Seq::empty()),
                    outputs,
                },
            ),
        },
    }
}

/// The program that a graph is lowered to.
pub open spec fn lowered<M: Target>(target: &M, graph: MidGraph, config: PipelineConfig) -> Result<
    ProgramModel,
    LowLoweringError,
> {
    if config.tile_count == 0 {
        Err(LowLoweringError::EmptyTileGroup)
    } else {
        match initial_state(target, graph, config.tile_count) {
            Err(e) => Err(e),
            Ok(start) => match lower_region(
                target,
                start,
                graph.operations@,
                graph.outputs@,
                config.diagnostic_checkpoints,
            ) {
                Err(e) => Err(e),
                Ok(s) => finished(s, graph, config.tile_count),
            },
        }
    }
}

impl LoweringState {
    fn inputs_of(&self, inputs: &Vec<MidInput>) -> (r: LowLoweringResult<Vec<LowInput>>)
        ensures
            found_all(r, inputs_from(self@, inputs@, 0, Seq::empty())),
    {
        broadcast use group_deep;

        let mut found: Vec<LowInput> = Vec::new();
        assert(deep(found@) =~= Seq::<InputModel>::empty());
        let mut i: usize = 0;
        while i < inputs.len()
            invariant
                i <= inputs@.len(),
                inputs_from(self@, inputs@, 0, Seq::empty()) == inputs_from(
                    self@,
                    inputs@,
                    i as int,
                    deep(found@),
                ),
            decreases inputs@.len() - i,
        {
            let input = &inputs[i];
            let shards = self.value_shards(input.value)?;
            found.push(
                LowInput {
                    name: input.name.clone(),
                    kind: input.kind,
                    value: input.value,
                    shards,
                },
            );
            i += 1;
        }
        Ok(found)
    }

    fn outputs_of(&self, outputs: &Vec<MidValueId>) -> (r: LowLoweringResult<Vec<LowValue>>)
        ensures
            found_all(r, outputs_from(self@, outputs@, 0, Seq::empty())),
    {
        broadcast use group_deep;

        let mut found: Vec<LowValue> = Vec::new();
        assert(deep(found@) =~= Seq::<ValueModel>::empty());
        let mut i: usize = 0;
        while i < outputs.len()
            invariant
                i <= outputs@.len(),
                outputs_from(self@, outputs@, 0, Seq::empty()) == outputs_from(
                    self@,
                    outputs@,
                    i as int,
                    deep(found@),
                ),
            decreases outputs@.len() - i,
        {
            let shards = self.value_shards(outputs[i])?;
            found.push(LowValue { value: outputs[i], shards });
            i += 1;
        }
        Ok(found)
    }

    fn values_of(&self, values: &Vec<MidValue>) -> (r: Vec<LowValue>)
        ensures
            deep(r@) == values_from(self@, values@, 0, Seq::empty()),
    {
        broadcast use group_deep;

        let mut found: Vec<LowValue> = Vec::new();
        assert(deep(found@) =~= Seq::<ValueModel>::empty());
        let mut v: usize = 0;
        while v < values.len()
            invariant
                v <= values@.len(),
                values_from(self@, values@, 0, Seq::empty()) == values_from(
                    self@,
                    values@,
                    v as int,
                    deep(found@),
                ),
            decreases values@.len() - v,
        {
            let value = values[v].id;
            match self.value_shards(value) {
                Ok(shards) => {
                    found.push(LowValue { value, shards });
                },
                Err(_) => {},
            }
            v += 1;
        }
        found
    }
}

impl LowProgram {
    /// All entries of a list refer to existing elements.
    pub open spec fn list_resolves(&self, list: TileWorkList) -> bool {
        forall|k: int| 0 <= k < list.work@.len() ==> self.resolves(#[trigger] list.work@[k])
    }

    /// All lists of the program, bodies of repeats included, can be resolved.
    pub open spec fn all_resolve(&self) -> bool {
        &&& self.tiles@.len() == self.tile_count
        &&& forall|t: int|
            0 <= t < self.tiles@.len() ==> self.list_resolves(#[trigger] self.tiles@[t])
        &&& forall|r: int|
            0 <= r < self.repeat_runs@.len() ==> self.list_resolves(
                *(#[trigger] self.repeat_runs@[r]).body,
            )
    }
}

/// What a sound schedule's lists lead to, the program has.
proof fn lemma_all_resolve<M: Target>(
    target: &M,
    graph: MidGraph,
    config: PipelineConfig,
    program: &LowProgram,
)
    requires
        lowered(target, graph, config) == Ok::<ProgramModel, LowLoweringError>(program@),
    ensures
        program.all_resolve(),
{
    broadcast use group_deep;

    lemma_lowered_programs_are_sound(target, graph, config);
    let s = choose|s: StateModel|
        #![trigger schedule_of(s, program@)]
        is_sound(s) && meets_all_phases(s) && schedule_of(s, program@);
    assert forall|t: int| 0 <= t < program.tiles@.len() implies program.list_resolves(
        #[trigger] program.tiles@[t],
    ) by {
        let list = program.tiles@[t];
        assert(s.tiles[t] == list@);
        assert(list_leads(s, s.tiles[t]));
        assert forall|k: int| 0 <= k < list.work@.len() implies program.resolves(
            #[trigger] list.work@[k],
        ) by {
            assert(leads_somewhere(s, s.tiles[t].tile, s.tiles[t].work[k]));
        }
    }
    assert forall|r: int| 0 <= r < program.repeat_runs@.len() implies program.list_resolves(
        *(#[trigger] program.repeat_runs@[r]).body,
    ) by {
        let list = *program.repeat_runs@[r].body;
        assert(s.repeat_runs[r] == program.repeat_runs@[r]@);
        assert(list_leads(s, s.repeat_runs[r].body));
        assert forall|k: int| 0 <= k < list.work@.len() implies program.resolves(
            #[trigger] list.work@[k],
        ) by {
            assert(leads_somewhere(
                s,
                s.repeat_runs[r].body.tile,
                s.repeat_runs[r].body.work[k],
            ));
        }
    }
}

/// Lowers a graph to a schedule for each tile.
pub fn lower_to_tiles<M: Target>(target: &M, graph: &MidGraph, config: &PipelineConfig) -> (r:
    LowLoweringResult<LowProgram>)
    ensures
        match r {
            Ok(program) => lowered(target, *graph, *config) == Ok::<
                ProgramModel,
                LowLoweringError,
            >(program@) && program.all_resolve(),
            Err(e) => lowered(target, *graph, *config) == Err::<ProgramModel, LowLoweringError>(e),
        },
{
    if config.tile_count == 0 {
        return Err(LowLoweringError::EmptyTileGroup);
    }
    let mut state = LoweringState::new(target, graph, config.tile_count)?;
    state.lower_region(
        target,
        &graph.operations,
        &graph.outputs,
        config.diagnostic_checkpoints,
    )?;
    let inputs = state.inputs_of(&graph.inputs)?;
    let outputs = state.outputs_of(&graph.outputs)?;
    let values = state.values_of(&graph.values);
    let program = LowProgram {
        tile_count: config.tile_count,
        shards: state.shards,
        exchange_phases: state.phases,
        inputs,
        tiles: state.tiles,
        kernel_runs: state.kernel_runs,
        local_copies: state.local_copies,
        repeat_runs: state.repeat_runs,
        values,
        outputs,
    };
    proof {
        lemma_all_resolve(target, *graph, *config, &program);
    }
    Ok(program)
}

} // verus!
