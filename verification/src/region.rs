//! Regions of operations: dispatch of operators, repeats and checkpoints.

use crate::attention::{lower_blocked_attention, AttentionSizes};
use crate::attention_whole::lower_materialized_attention;
use crate::conversion::lower_conversion;
use crate::deferral::{defer_conversion, defer_fused_output};
use crate::gemm::GemmKernels;
use crate::heads::lower_split_heads;
use crate::low::{
    LowLoweringError, LowLoweringResult, TileWork, TileWorkList, WorkListModel,
};
use crate::mid::{
    MidOperation, MidOperationKind, MidRepeat, MidValueId, OperatorDispatch,
};
use crate::model::{deep, group_deep};
use crate::pointwise::lower_pointwise;
use crate::reduction_sum::lower_blocked_gemm;
use crate::repeats::{
    append_tile_repeats_from, find_not_in_place, fits_together, is_consistent, not_in_place_from,
};
use crate::state::{did, push_everywhere, LoweringState, StateModel, Step};
use crate::target::Target;
use vstd::prelude::*;

verus! {

/// Lowers an operator by its plan.
pub open spec fn lower_operator<M: Target>(
    target: &M,
    s: StateModel,
    operation: MidOperation,
) -> Step {
    match operation.operator_plan {
        None => Err(LowLoweringError::MissingOperatorPlan),
        Some(plan) => match plan.dispatch {
            OperatorDispatch::Pointwise { kernel, input_mapping } => lower_pointwise(
                s,
                operation,
                kernel@,
                input_mapping,
                plan.requirements@,
            ),
            OperatorDispatch::BlockedGemm {
                initialize,
                accumulate,
                inner_block,
                output_column_block,
                distribution,
                orientation,
            } => lower_blocked_gemm(
                target,
                s,
                operation,
                GemmKernels {
                    initialize: initialize@,
                    accumulate: accumulate@,
                    requirements: plan.requirements@,
                },
                inner_block,
                output_column_block,
                orientation,
                distribution,
            ),
            OperatorDispatch::BlockedAttention {
                query_key,
                probability_value,
                query_block_rows,
                key_block_rows,
                padded_query_dimension,
                padded_value_dimension,
            } => lower_blocked_attention(
                target,
                s,
                operation,
                query_key@,
                probability_value@,
                AttentionSizes {
                    query_block_rows,
                    key_columns: key_block_rows,
                    padded_query_dimension,
                    padded_value_dimension,
                },
                plan.requirements@,
            ),
            OperatorDispatch::MaterializedAttention {
                query_key,
                probability_value,
                query_block_rows,
                padded_key_rows,
                padded_query_dimension,
                padded_value_dimension,
            } => lower_materialized_attention(
                target,
                s,
                operation,
                query_key@,
                probability_value@,
                AttentionSizes {
                    query_block_rows,
                    key_columns: padded_key_rows,
                    padded_query_dimension,
                    padded_value_dimension,
                },
                plan.requirements@,
            ),
            OperatorDispatch::SplitHeads => lower_split_heads(
                target,
                s,
                operation,
                plan.operator,
            ),
        },
    }
}

/// Marks the end of an operation on every tile.
pub open spec fn append_checkpoint(s: StateModel, operation: MidOperation, breakpoint: u8) -> StateModel {
    match operation.source {
        None => s,
        Some(source) => StateModel {
            tiles: push_everywhere(s.tiles, TileWork::Checkpoint(source, breakpoint)),
            ..s
        },
    }
}

/// Operators and repeats that come from an operation of the source are followed
/// by a checkpoint, where checkpoints are asked for.
pub open spec fn is_checked(operation: MidOperation, checkpoints: bool) -> bool {
    checkpoints && operation.source is Some && (operation.kind is Operator || operation.kind is Repeat)
}

/// The other of the two breakpoints.
pub open spec fn other_breakpoint(breakpoint: u8) -> u8 {
    if breakpoint == 0 {
        1
    } else {
        0
    }
}

/// The operation after position `k`.
pub open spec fn following(operations: Seq<MidOperation>, k: int) -> Option<MidOperation> {
    if k + 1 < operations.len() {
        Some(operations[k + 1])
    } else {
        None
    }
}

/// Lists without work, one for each tile.
pub open spec fn no_work(tile_count: u16) -> Seq<WorkListModel> {
    Seq::new(
        tile_count as nat,
        |t: int| WorkListModel { tile: t as u16, work: Seq::empty() },
    )
}

/// Lowers the operations from `k` on. An operation whose result is left to its
/// consumer adds no work of its own. Checkpoints alternate between two
/// breakpoints.
pub open spec fn lower_operations_from<M: Target>(
    target: &M,
    s: StateModel,
    operations: Seq<MidOperation>,
    retained: Seq<MidValueId>,
    checkpoints: bool,
    breakpoint: u8,
    k: int,
) -> Step
    decreases operations, operations.len() - k,
{
    if k < 0 || k >= operations.len() {
        Ok(s)
    } else {
        let operation = operations[k];
        match defer_fused_output(target, s, operation, operations, retained) {
            Err(e) => Err(e),
            Ok((a, true)) => lower_operations_from(
                target,
                a,
                operations,
                retained,
                checkpoints,
                breakpoint,
                k + 1,
            ),
            Ok((a, false)) => match defer_conversion(
                a,
                operation,
                following(operations, k),
                operations,
                retained,
            ) {
                Err(e) => Err(e),
                Ok((b, true)) => lower_operations_from(
                    target,
                    b,
                    operations,
                    retained,
                    checkpoints,
                    breakpoint,
                    k + 1,
                ),
                Ok((b, false)) => match (match operation.kind {
                    MidOperationKind::Repeat(repeat) => lower_repeat(
                        target,
                        b,
                        operation,
                        repeat,
                    ),
                    MidOperationKind::Operator(_) => lower_operator(target, b, operation),
                    _ => lower_conversion(target, b, operation),
                }) {
                    Err(e) => Err(e),
                    Ok(c) => if is_checked(operation, checkpoints) {
                        lower_operations_from(
                            target,
                            append_checkpoint(c, operation, breakpoint),
                            operations,
                            retained,
                            checkpoints,
                            other_breakpoint(breakpoint),
                            k + 1,
                        )
                    } else {
                        lower_operations_from(
                            target,
                            c,
                            operations,
                            retained,
                            checkpoints,
                            breakpoint,
                            k + 1,
                        )
                    },
                },
            },
        }
    }
}

/// Lowers the body of a repeat, apart from the work around it.
pub open spec fn lower_body<M: Target>(target: &M, s: StateModel, repeat: MidRepeat) -> Step {
    lower_operations_from(
        target,
        StateModel { tiles: no_work(s.tile_count), ..s },
        repeat.body.operations@,
        repeat.body.yields@,
        false,
        0,
        0,
    )
}

/// Lowers a repeat: its body once, and then, on every tile, a run of the body
/// with the bindings of its values. The work around the repeat is kept.
pub open spec fn lower_repeat<M: Target>(
    target: &M,
    s: StateModel,
    operation: MidOperation,
    repeat: MidRepeat,
) -> Step
    decreases repeat, 0int,
{
    if !is_consistent(operation, repeat) {
        Err(LowLoweringError::InvalidRepeat)
    } else {
        match not_in_place_from(repeat, 0) {
            Some(i) => Err(LowLoweringError::RepeatRequiresInPlace(i as usize)),
            None => match lower_operations_from(
                target,
                StateModel { tiles: no_work(s.tile_count), ..s },
                repeat.body.operations@,
                repeat.body.yields@,
                false,
                0,
                0,
            ) {
                Err(e) => Err(e),
                Ok(lowered) => append_tile_repeats_from(
                    StateModel { tiles: s.tiles, ..lowered },
                    operation,
                    repeat,
                    lowered.tiles,
                    lowered.tile_count,
                    0,
                ),
            },
        }
    }
}

/// Lowers a region of its own.
pub open spec fn lower_region<M: Target>(
    target: &M,
    s: StateModel,
    operations: Seq<MidOperation>,
    retained: Seq<MidValueId>,
    checkpoints: bool,
) -> Step {
    lower_operations_from(
        target,
        StateModel { tiles: no_work(s.tile_count), ..s },
        operations,
        retained,
        checkpoints,
        0,
        0,
    )
}

// ---------------------------------------------------------------- carrying out

/// Lists without work, one for each tile.
pub fn new_work_lists(tile_count: u16) -> (r: Vec<TileWorkList>)
    ensures
        deep(r@) == no_work(tile_count),
{
    broadcast use group_deep;

    let mut lists: Vec<TileWorkList> = Vec::new();
    let mut tile: u16 = 0;
    while tile < tile_count
        invariant
            tile <= tile_count,
            lists@.len() == tile,
            forall|t: int| 0 <= t < tile ==> (#[trigger] lists@[t])@ == no_work(tile_count)[t],
        decreases tile_count - tile,
    {
        let list = TileWorkList { tile, work: Vec::new() };
        assert(list@.work =~= Seq::<TileWork>::empty());
        lists.push(list);
        tile += 1;
    }
    assert(deep(lists@) =~= no_work(tile_count));
    lists
}

impl LoweringState {
    /// Lowers an operator by its plan.
    pub fn lower_operator<M: Target>(&mut self, target: &M, operation: &MidOperation) -> (r:
        LowLoweringResult<()>)
        ensures
            did(r, final(self)@, lower_operator(target, old(self)@, *operation)),
    {
        let plan = match &operation.operator_plan {
            Some(plan) => plan,
            None => {
                return Err(LowLoweringError::MissingOperatorPlan);
            },
        };
        match &plan.dispatch {
            OperatorDispatch::Pointwise { kernel, input_mapping } => self.lower_pointwise(
                operation,
                kernel,
                *input_mapping,
                &plan.requirements,
            ),
            OperatorDispatch::BlockedGemm {
                initialize,
                accumulate,
                inner_block,
                output_column_block,
                distribution,
                orientation,
            } => self.lower_blocked_gemm(
                target,
                operation,
                initialize,
                accumulate,
                *inner_block,
                *output_column_block,
                *orientation,
                *distribution,
                &plan.requirements,
            ),
            OperatorDispatch::BlockedAttention {
                query_key,
                probability_value,
                query_block_rows,
                key_block_rows,
                padded_query_dimension,
                padded_value_dimension,
            } => self.lower_blocked_attention(
                target,
                operation,
                query_key,
                probability_value,
                AttentionSizes {
                    query_block_rows: *query_block_rows,
                    key_columns: *key_block_rows,
                    padded_query_dimension: *padded_query_dimension,
                    padded_value_dimension: *padded_value_dimension,
                },
                &plan.requirements,
            ),
            OperatorDispatch::MaterializedAttention {
                query_key,
                probability_value,
                query_block_rows,
                padded_key_rows,
                padded_query_dimension,
                padded_value_dimension,
            } => self.lower_materialized_attention(
                target,
                operation,
                query_key,
                probability_value,
                AttentionSizes {
                    query_block_rows: *query_block_rows,
                    key_columns: *padded_key_rows,
                    padded_query_dimension: *padded_query_dimension,
                    padded_value_dimension: *padded_value_dimension,
                },
                &plan.requirements,
            ),
            OperatorDispatch::SplitHeads => self.lower_split_heads(
                target,
                operation,
                plan.operator,
            ),
        }
    }

    fn lower_operations<M: Target>(
        &mut self,
        target: &M,
        operations: &Vec<MidOperation>,
        retained: &Vec<MidValueId>,
        checkpoints: bool,
    ) -> (r: LowLoweringResult<()>)
        ensures
            did(
                r,
                final(self)@,
                lower_operations_from(
                    target,
                    old(self)@,
                    operations@,
                    retained@,
                    checkpoints,
                    0,
                    0,
                ),
            ),
        decreases operations@, 0int,
    {
        let ghost start = self@;
        let ghost list = operations@;
        let mut breakpoint: u8 = 0;
        let mut k: usize = 0;
        while k < operations.len()
            invariant
                k <= operations@.len(),
                lower_operations_from(target, start, list, retained@, checkpoints, 0, 0)
                    == lower_operations_from(
                    target,
                    self@,
                    list,
                    retained@,
                    checkpoints,
                    breakpoint,
                    k as int,
                ),
            decreases operations@.len() - k,
        {
            let operation = &operations[k];
            let deferred = self.defer_fused_output(target, operation, operations, retained)?;
            if !deferred {
                let next: Option<&MidOperation> = if k + 1 < operations.len() {
                    Some(&operations[k + 1])
                } else {
                    None
                };
                let deferred = self.defer_conversion(operation, next, operations, retained)?;
                if !deferred {
                    match &operation.kind {
                        MidOperationKind::Repeat(repeat) => {
                            assert(decreases_to!(list => list[k as int]));
                            assert(decreases_to!(list[k as int] => list[k as int].kind));
                            self.lower_repeat(target, operation, repeat)?;
                        },
                        MidOperationKind::Operator(_) => {
                            self.lower_operator(target, operation)?;
                        },
                        _ => {
                            self.lower_conversion(target, operation)?;
                        },
                    }
                    if checkpoints {
                        match &operation.kind {
                            MidOperationKind::Operator(_) | MidOperationKind::Repeat(_) => {
                                match operation.source {
                                    Some(source) => {
                                        self.push_everywhere(
                                            TileWork::Checkpoint(source, breakpoint),
                                        );
                                        breakpoint = if breakpoint == 0 {
                                            1
                                        } else {
                                            0
                                        };
                                    },
                                    None => {},
                                }
                            },
                            _ => {},
                        }
                    }
                }
            }
            k += 1;
        }
        Ok(())
    }

    /// Lowers a repeat.
    pub fn lower_repeat<M: Target>(
        &mut self,
        target: &M,
        operation: &MidOperation,
        repeat: &MidRepeat,
    ) -> (r: LowLoweringResult<()>)
        ensures
            did(r, final(self)@, lower_repeat(target, old(self)@, *operation, *repeat)),
            !is_consistent(*operation, *repeat) || not_in_place_from(*repeat, 0) is Some
                ==> final(self)@ == old(self)@,
            lower_body(target, old(self)@, *repeat) is Err ==> final(self)@.tiles == old(
                self,
            )@.tiles,
        decreases *repeat, 1int,
    {
        broadcast use group_deep;

        if !fits_together(operation, repeat) {
            return Err(LowLoweringError::InvalidRepeat);
        }
        match find_not_in_place(operation, repeat) {
            Some(i) => {
                return Err(LowLoweringError::RepeatRequiresInPlace(i));
            },
            None => {},
        }
        let mut lists = new_work_lists(self.tile_count);
        std::mem::swap(&mut self.tiles, &mut lists);
        let lowered = self.lower_operations(
            target,
            &repeat.body.operations,
            &repeat.body.yields,
            false,
        );
        std::mem::swap(&mut self.tiles, &mut lists);
        lowered?;
        self.append_tile_repeats(operation, repeat, &lists)
    }

    /// Lowers a region of its own.
    pub fn lower_region<M: Target>(
        &mut self,
        target: &M,
        operations: &Vec<MidOperation>,
        retained: &Vec<MidValueId>,
        checkpoints: bool,
    ) -> (r: LowLoweringResult<()>)
        ensures
            did(
                r,
                final(self)@,
                lower_region(target, old(self)@, operations@, retained@, checkpoints),
            ),
    {
        self.tiles = new_work_lists(self.tile_count);
        self.lower_operations(target, operations, retained, checkpoints)
    }
}

} // verus!
