//! Carrying out products that keep their outputs in place.

use crate::gemm::{
    block_range, block_shard, column_outputs_from, divides_inner, dispatch_input_view, fresh_pass,
    gemm_column, gemm_columns_from, gemm_output, gemm_outputs_from, gemm_pass, gemm_passes_from,
    holds_columns, left_from, left_operand, loading, local_block, lower_resident_gemm,
    lower_streamed_blocked_gemm,
    packed_copies_from, padded_axis, remote_block, resident_right, right_block, staged_from,
    streams_interleaved, GemmKernels, GemmModel, GemmPlan, GemmProgress, Staged,
};
use crate::lookup::{converted_from, value_shards};
use crate::low::{
    two_operands, ExchangeOrder, LocalCopy, LocalCopyPattern, LowLoweringError, LowLoweringResult,
    LowShard, LowShardId, ShardDefinition, ShardView, WorkProvenance, WorkReason,
};
use crate::mid::{
    GemmWeightLoad, KernelSpec, LocalOperandStaging, MidOperation, OperatorRequirements,
    TileKernelSpec,
};
use crate::model::{Model, copy_all, deep, group_deep};
use crate::order::Groups;
use crate::phase::{add_transfer_to, transfers_nonempty};
use crate::pointwise::new_operator_run;
use crate::state::{did, LoweringState, StateModel, StepWith};
use crate::target::Target;
use crate::tensor::{
    AxisTiling, ByteSpan, MemoryClass, Precision, ShardExtent, TensorAxis,
};
use vstd::prelude::*;

verus! {

/// The kernels and requirements of a product.
#[derive(Debug)]
pub struct GemmRuns<'a> {
    pub initialize: &'a TileKernelSpec,
    pub accumulate: &'a TileKernelSpec,
    pub requirements: &'a OperatorRequirements,
}

impl<'a> View for GemmRuns<'a> {
    type V = GemmKernels;

    open spec fn view(&self) -> GemmKernels {
        GemmKernels {
            initialize: self.initialize@,
            accumulate: self.accumulate@,
            requirements: self.requirements@,
        }
    }
}

/// `r` hands back the expected view and progress, or is the expected error.
pub open spec fn gave_block<T: View>(
    r: LowLoweringResult<T>,
    after: StateModel,
    progress: GemmModel,
    step: StepWith<(GemmModel, T::V)>,
) -> bool {
    match r {
        Ok(value) => step == Ok::<(StateModel, (GemmModel, T::V)), LowLoweringError>(
            (after, (progress, value@)),
        ),
        Err(e) => step == Err::<(StateModel, (GemmModel, T::V)), LowLoweringError>(e),
    }
}

/// `r` leaves the expected progress, or is the expected error.
pub open spec fn progressed(
    r: LowLoweringResult<()>,
    after: StateModel,
    progress: GemmModel,
    step: StepWith<GemmModel>,
) -> bool {
    match r {
        Ok(_) => step == Ok::<(StateModel, GemmModel), LowLoweringError>((after, progress)),
        Err(e) => step == Err::<(StateModel, GemmModel), LowLoweringError>(e),
    }
}

fn find_staged(staged: &Vec<Staged>, tile: u16, column: u32) -> (r: Option<LowShardId>)
    ensures
        r == staged_from(staged@, tile, column, 0),
{
    let mut i: usize = 0;
    while i < staged.len()
        invariant
            i <= staged@.len(),
            staged_from(staged@, tile, column, 0) == staged_from(staged@, tile, column, i as int),
        decreases staged@.len() - i,
    {
        let ((staged_tile, staged_column), id) = staged[i];
        if staged_tile == tile && staged_column == column {
            return Some(id);
        }
        i += 1;
    }
    None
}

fn find_left(left: &Vec<(u16, ShardView)>, tile: u16) -> (r: Option<ShardView>)
    ensures
        match r {
            Some(view) => left_from(deep(left@), tile, 0) == Some(view@),
            None => left_from(deep(left@), tile, 0) is None,
        },
{
    broadcast use group_deep;

    let ghost model = deep(left@);
    let mut i: usize = 0;
    while i < left.len()
        invariant
            i <= left@.len(),
            left_from(model, tile, 0) == left_from(model, tile, i as int),
        decreases left@.len() - i,
    {
        assert(model[i as int] == left@[i as int]@);
        if left[i].0 == tile {
            return Some(left[i].1.duplicate());
        }
        i += 1;
    }
    None
}

fn append_packed_copies(
    spans: &Vec<ByteSpan>,
    source: LowShardId,
    destination: LowShardId,
    tile: u16,
    copies: &mut Vec<(u16, LocalCopy)>,
) -> (r: LowLoweringResult<()>)
    ensures
        match r {
            Ok(_) => packed_copies_from(
                spans@,
                source,
                destination,
                tile,
                0,
                0,
                old(copies)@,
            ) == Ok::<Seq<(u16, LocalCopy)>, LowLoweringError>(final(copies)@),
            Err(e) => packed_copies_from(
                spans@,
                source,
                destination,
                tile,
                0,
                0,
                old(copies)@,
            ) == Err::<Seq<(u16, LocalCopy)>, LowLoweringError>(e),
        },
{
    let ghost before = copies@;
    let mut offset: u32 = 0;
    let mut k: usize = 0;
    while k < spans.len()
        invariant
            k <= spans@.len(),
            packed_copies_from(spans@, source, destination, tile, 0, 0, before)
                == packed_copies_from(
                spans@,
                source,
                destination,
                tile,
                k as int,
                offset as int,
                copies@,
            ),
        decreases spans@.len() - k,
    {
        let span: ByteSpan = spans[k];
        let next: u32 = match offset.checked_add(span.bytes) {
            Some(next) => next,
            None => {
                return Err(LowLoweringError::IdOverflow);
            },
        };
        copies.push(
            (
                tile,
                LocalCopy {
                    source,
                    source_offset: span.offset,
                    destination,
                    destination_offset: offset,
                    bytes: span.bytes,
                    pattern: LocalCopyPattern::Contiguous,
                },
            ),
        );
        offset = next;
        k += 1;
    }
    Ok(())
}

fn with_loading(kernel: TileKernelSpec, memory_class: MemoryClass) -> (r: TileKernelSpec)
    ensures
        r@ == loading(kernel@, memory_class),
{
    match kernel {
        KernelSpec::Gemm {
            multiply,
            accumulate,
            mode,
            weights,
            inner_block,
            output_columns,
        } => KernelSpec::Gemm {
            multiply,
            accumulate,
            mode,
            weights: if memory_class == MemoryClass::Ipu21Interleaved {
                GemmWeightLoad::Interleaved
            } else {
                weights
            },
            inner_block,
            output_columns,
        },
        other => other,
    }
}

/// Whether the axis before the last is divided over tiles.
pub fn is_inner_divided(axes: &Vec<AxisTiling>) -> (r: bool)
    ensures
        r == divides_inner(axes@),
{
    let mut i: usize = 0;
    while i < axes.len()
        invariant
            i <= axes@.len(),
            forall|k: int|
                0 <= k < i ==> !((#[trigger] axes@[k]).axis == TensorAxis::FromEnd(2)
                    && axes@[k].partitions > 1),
        decreases axes@.len() - i,
    {
        let divided = match axes[i].axis {
            TensorAxis::FromEnd(axis) => axis == 2 && axes[i].partitions > 1,
            _ => false,
        };
        if divided {
            assert(axes@[i as int].axis == TensorAxis::FromEnd(2) && axes@[i as int].partitions
                > 1);
            return true;
        }
        i += 1;
    }
    false
}

impl LoweringState {
    fn new_block_shard(
        &self,
        right: LowShardId,
        extents: &Vec<ShardExtent>,
        tile: u16,
        interleaved: bool,
        definition: ShardDefinition,
    ) -> (r: LowShard)
        requires
            right.0 < self@.shards.len(),
        ensures
            r@ == block_shard(
                self@.shards[right.0 as int],
                extents@,
                tile,
                interleaved,
                definition,
            ),
    {
        broadcast use group_deep;

        let mut tensor_type = self.shards[right.0 as usize].tensor_type.duplicate();
        if interleaved {
            tensor_type.format.layout.memory_class = MemoryClass::Ipu21Interleaved;
        }
        LowShard {
            id: LowShardId(0),
            tile,
            tensor_type,
            extents: copy_all(extents.as_slice()),
            definition,
        }
    }

    fn local_block(
        &mut self,
        plan: GemmPlan,
        interleaved: bool,
        tile: u16,
        column: u32,
        right: LowShardId,
        view: &ShardView,
        g: &mut GemmProgress,
    ) -> (r: LowLoweringResult<LowShardId>)
        requires
            right.0 < old(self)@.shards.len(),
        ensures
            gave_block(
                r,
                final(self)@,
                final(g)@,
                local_block(
                    old(self)@,
                    plan,
                    interleaved,
                    tile,
                    column,
                    right,
                    view@,
                    old(g)@,
                ),
            ),
            final(g)@.transfers == old(g)@.transfers,
    {
        let existing = find_staged(&g.local, tile, column);
        let definition = match existing {
            Some(id) => {
                if plan.streamed {
                    return Ok(id);
                }
                ShardDefinition::Alias(id)
            },
            None => if plan.streamed {
                ShardDefinition::Staging
            } else {
                ShardDefinition::LocalCopy(right)
            },
        };
        let copy = self.new_block_shard(right, &view.extents, tile, interleaved, definition);
        let id = self.push_shard(copy)?;
        if existing.is_none() {
            g.local.push(((tile, column), id));
        }
        Ok(id)
    }

    fn remote_block(
        &mut self,
        plan: GemmPlan,
        interleaved: bool,
        tile: u16,
        column: u32,
        right: LowShardId,
        view: &ShardView,
        g: &mut GemmProgress,
    ) -> (r: LowLoweringResult<LowShardId>)
        requires
            right.0 < old(self)@.shards.len(),
        ensures
            gave_block(
                r,
                final(self)@,
                final(g)@,
                remote_block(
                    old(self)@,
                    plan,
                    interleaved,
                    tile,
                    column,
                    right,
                    view@,
                    old(g)@,
                ),
            ),
            final(g)@.transfers == old(g)@.transfers,
    {
        match find_staged(&g.remote, tile, column) {
            Some(id) => {
                return Ok(id);
            },
            None => {},
        }
        let copy = self.new_block_shard(
            right,
            &view.extents,
            tile,
            plan.streamed && interleaved,
            ShardDefinition::ExchangeStaging,
        );
        let id = self.push_shard(copy)?;
        g.remote.push(((tile, column), id));
        Ok(id)
    }

    fn resident_right<M: Target>(
        &mut self,
        target: &M,
        plan: GemmPlan,
        interleaved: bool,
        tile: u16,
        column: u32,
        right: LowShardId,
        view: ShardView,
        g: &mut GemmProgress,
    ) -> (r: LowLoweringResult<ShardView>)
        requires
            right.0 < old(self)@.shards.len(),
        ensures
            gave_block(
                r,
                final(self)@,
                final(g)@,
                resident_right(
                    target,
                    old(self)@,
                    plan,
                    interleaved,
                    tile,
                    column,
                    right,
                    view@,
                    old(g)@,
                ),
            ),
            transfers_nonempty(old(g)@.transfers) ==> transfers_nonempty(final(g)@.transfers),
    {
        if self.resides(right, tile) {
            let spans = self.spans_of(target, &view, ExchangeOrder::Physical)?;
            if spans.len() == 1 && (!interleaved || plan.local_staging
                == LocalOperandStaging::Direct) {
                return Ok(view);
            }
            let copy = self.local_block(plan, interleaved, tile, column, right, &view, g)?;
            append_packed_copies(&spans, right, copy, tile, &mut g.copies)?;
            self.full_view(copy)
        } else {
            let copy = self.remote_block(plan, interleaved, tile, column, right, &view, g)?;
            let whole = self.full_view(copy)?;
            add_transfer_to(&mut g.transfers, view, whole.duplicate());
            Ok(whole)
        }
    }

    fn left_operand<M: Target>(
        &mut self,
        target: &M,
        plan: GemmPlan,
        tile: u16,
        inner: (u32, u32),
        g: &mut GemmProgress,
    ) -> (r: LowLoweringResult<ShardView>)
        requires
            plan.left_rank >= 1,
        ensures
            gave_block(
                r,
                final(self)@,
                final(g)@,
                left_operand(target, old(self)@, plan, tile, inner, old(g)@),
            ),
            transfers_nonempty(old(g)@.transfers) ==> transfers_nonempty(final(g)@.transfers),
    {
        broadcast use group_deep;

        match find_left(&g.left, tile) {
            Some(view) => {
                return Ok(view);
            },
            None => {},
        }
        let mut ranges: Vec<(usize, u32, u32)> = Vec::new();
        ranges.push((plan.left_rank - 1, inner.0, inner.1));
        assert(ranges@ =~= seq![((plan.left_rank - 1) as usize, inner.0, inner.1)]);
        let view = self.dispatch_input_view(
            target,
            plan.left,
            tile,
            &ranges,
            &mut g.transfers,
            &mut g.copies,
        )?;
        g.left.push((tile, view.duplicate()));
        Ok(view)
    }

    fn gemm_output<M: Target>(
        &mut self,
        target: &M,
        plan: GemmPlan,
        kernels: &GemmRuns,
        candidates: &Vec<LowShardId>,
        interleaved: bool,
        output: LowShardId,
        inner: (u32, u32),
        columns: (u32, u32),
        g: &mut GemmProgress,
    ) -> (r: LowLoweringResult<()>)
        requires
            plan.left_rank >= 1,
            plan.output_rank >= 1,
        ensures
            progressed(
                r,
                final(self)@,
                final(g)@,
                gemm_output(
                    target,
                    old(self)@,
                    plan,
                    kernels@,
                    candidates@,
                    interleaved,
                    output,
                    inner,
                    columns,
                    old(g)@,
                ),
            ),
            transfers_nonempty(old(g)@.transfers) ==> transfers_nonempty(final(g)@.transfers),
    {
        broadcast use group_deep;

        let tile: u16 = self.shard(output)?.tile;
        let left = self.left_operand(target, plan, tile, inner, g)?;
        let right = match self.prefer_local_shard(candidates, tile) {
            Some(right) => right,
            None => {
                return Err(LowLoweringError::InvalidOperatorPlan);
            },
        };
        let view = self.right_block(right, columns, inner)?;
        let weights = self.resident_right(
            target,
            plan,
            interleaved,
            tile,
            columns.0,
            right,
            view,
            g,
        )?;
        let mut ranges: Vec<(usize, u32, u32)> = Vec::new();
        ranges.push((plan.output_rank - 1, columns.0, columns.1));
        assert(ranges@ =~= seq![((plan.output_rank - 1) as usize, columns.0, columns.1)]);
        let result = self.narrow_view(output, ranges.as_slice())?;
        let memory_class = self.shard(weights.shard)?.tensor_type.format.layout.memory_class;
        let kernel = if inner.0 == 0 {
            kernels.initialize.duplicate()
        } else {
            kernels.accumulate.duplicate()
        };
        let run = new_operator_run(
            WorkProvenance {
                operation: plan.source,
                value: Some(plan.output),
                reason: WorkReason::OperatorKernel,
            },
            with_loading(kernel, memory_class),
            two_operands(left, weights),
            result,
            kernels.requirements,
        );
        g.runs.push((tile, run));
        Ok(())
    }

    fn column_outputs(&self, ids: &Vec<LowShardId>, columns: (u32, u32)) -> (r: Vec<LowShardId>)
        ensures
            r@ == column_outputs_from(self@.shards, ids@, columns, 0, Seq::empty()),
    {
        broadcast use group_deep;

        let mut users: Vec<LowShardId> = Vec::new();
        let mut k: usize = 0;
        while k < ids.len()
            invariant
                k <= ids@.len(),
                column_outputs_from(self@.shards, ids@, columns, 0, Seq::empty())
                    == column_outputs_from(self@.shards, ids@, columns, k as int, users@),
            decreases ids@.len() - k,
        {
            let id = ids[k];
            let mut held = false;
            if (id.0 as usize) < self.shards.len() {
                let extents = &self.shards[id.0 as usize].extents;
                assert(extents@ == self@.shards[id.0 as int].extents);
                if extents.len() > 0 {
                    let last: ShardExtent = extents[extents.len() - 1];
                    held = last.start <= columns.0 && last.physical_end >= columns.1;
                }
            }
            assert(held == holds_columns(self@.shards, id, columns));
            if held {
                users.push(id);
            }
            k += 1;
        }
        users
    }

    fn gemm_column<M: Target>(
        &mut self,
        target: &M,
        plan: GemmPlan,
        kernels: &GemmRuns,
        rights: &Vec<LowShardId>,
        outputs: &Vec<LowShardId>,
        inner: (u32, u32),
        columns: (u32, u32),
        g: &mut GemmProgress,
    ) -> (r: LowLoweringResult<()>)
        requires
            plan.left_rank >= 1,
            plan.output_rank >= 1,
        ensures
            progressed(
                r,
                final(self)@,
                final(g)@,
                gemm_column(
                    target,
                    old(self)@,
                    plan,
                    kernels@,
                    rights@,
                    outputs@,
                    inner,
                    columns,
                    old(g)@,
                ),
            ),
            transfers_nonempty(old(g)@.transfers) ==> transfers_nonempty(final(g)@.transfers),
    {
        let candidates = self.right_shards_for_block(rights, columns, inner);
        if candidates.len() == 0 {
            return Err(LowLoweringError::InvalidOperatorPlan);
        }
        let users = self.column_outputs(outputs, columns);
        let interleaved = if plan.streamed {
            plan.interleaved
        } else {
            if users.len() == 0 {
                return Err(LowLoweringError::InvalidOperatorPlan);
            }
            self.use_uniform_interleaved_gemm_staging(
                target,
                &users,
                rights,
                columns,
                (0, plan.inner_block),
                plan.access_tail,
            )?
        };
        let ghost start = self@;
        let ghost before = g@;
        let mut k: usize = 0;
        while k < users.len()
            invariant
                k <= users@.len(),
                gemm_outputs_from(
                    target,
                    start,
                    plan,
                    kernels@,
                    candidates@,
                    interleaved,
                    users@,
                    inner,
                    columns,
                    0,
                    before,
                ) == gemm_outputs_from(
                    target,
                    self@,
                    plan,
                    kernels@,
                    candidates@,
                    interleaved,
                    users@,
                    inner,
                    columns,
                    k as int,
                    g@,
                ),
                transfers_nonempty(before.transfers) ==> transfers_nonempty(g@.transfers),
            decreases users@.len() - k,
        {
            self.gemm_output(
                target,
                plan,
                kernels,
                &candidates,
                interleaved,
                users[k],
                inner,
                columns,
                g,
            )?;
            k += 1;
        }
        Ok(())
    }

    fn gemm_pass<M: Target>(
        &mut self,
        target: &M,
        plan: GemmPlan,
        kernels: &GemmRuns,
        rights: &Vec<LowShardId>,
        outputs: &Vec<LowShardId>,
        k: u32,
        local: Vec<Staged>,
        remote: Vec<Staged>,
    ) -> (r: LowLoweringResult<(Vec<Staged>, Vec<Staged>)>)
        requires
            plan.left_rank >= 1,
            plan.output_rank >= 1,
            (k + 1) * plan.inner_block <= u32::MAX,
            plan.column_blocks * plan.column_block <= u32::MAX,
        ensures
            match r {
                Ok((more_local, more_remote)) => gemm_pass(
                    target,
                    old(self)@,
                    plan,
                    kernels@,
                    rights@,
                    outputs@,
                    k as int,
                    local@,
                    remote@,
                ) == Ok::<(StateModel, (Seq<Staged>, Seq<Staged>)), LowLoweringError>(
                    (final(self)@, (more_local@, more_remote@)),
                ),
                Err(e) => gemm_pass(
                    target,
                    old(self)@,
                    plan,
                    kernels@,
                    rights@,
                    outputs@,
                    k as int,
                    local@,
                    remote@,
                ) == Err::<(StateModel, (Seq<Staged>, Seq<Staged>)), LowLoweringError>(e),
            },
    {
        broadcast use group_deep;

        proof {
            assert(k * plan.inner_block + plan.inner_block == (k + 1) * plan.inner_block)
                by (nonlinear_arith);
            assert(0 <= k * plan.inner_block) by (nonlinear_arith);
        }
        let start: u32 = k * plan.inner_block;
        let inner = (start, start + plan.inner_block);
        assert(inner == block_range(k as int, plan.inner_block));
        let mut g = GemmProgress {
            transfers: Groups::new(),
            copies: Vec::new(),
            local,
            remote,
            left: Vec::new(),
            runs: Vec::new(),
        };
        assert(g@ == fresh_pass(local@, remote@));
        let ghost before = self@;
        let mut c: u32 = 0;
        while c < plan.column_blocks
            invariant
                c <= plan.column_blocks,
                gemm_columns_from(
                    target,
                    before,
                    plan,
                    kernels@,
                    rights@,
                    outputs@,
                    inner,
                    0,
                    fresh_pass(local@, remote@),
                ) == gemm_columns_from(
                    target,
                    self@,
                    plan,
                    kernels@,
                    rights@,
                    outputs@,
                    inner,
                    c as int,
                    g@,
                ),
                transfers_nonempty(g@.transfers),
            decreases plan.column_blocks - c,
        {
            proof {
                assert((c + 1) * plan.column_block <= plan.column_blocks * plan.column_block)
                    by (nonlinear_arith)
                    requires
                        c + 1 <= plan.column_blocks,
                ;
                assert(c * plan.column_block + plan.column_block == (c + 1) * plan.column_block)
                    by (nonlinear_arith);
                assert(0 <= c * plan.column_block) by (nonlinear_arith);
            }
            let first: u32 = c * plan.column_block;
            let columns = (first, first + plan.column_block);
            assert(columns == block_range(c as int, plan.column_block));
            self.gemm_column(target, plan, kernels, rights, outputs, inner, columns, &mut g)?;
            c += 1;
        }
        let provenance = if self.converted_from(plan.left).is_some() {
            WorkProvenance {
                operation: plan.source,
                value: None,
                reason: WorkReason::OperatorInputs,
            }
        } else {
            WorkProvenance {
                operation: plan.source,
                value: Some(plan.right),
                reason: WorkReason::OperatorInput { input: 1 },
            }
        };
        self.append_ordered_phase(&g.transfers, provenance, ExchangeOrder::Semantic)?;
        self.append_copies(&g.copies)?;
        self.append_kernels(g.runs)?;
        Ok((g.local, g.remote))
    }

    fn padded_axis<M: Target>(&self, target: &M, id: LowShardId) -> (r: LowLoweringResult<u32>)
        requires
            id.0 < self@.shards.len(),
            self@.shards[id.0 as int].tensor_type.shape.len() > 0,
        ensures
            r == padded_axis(target, self@.shards[id.0 as int]),
    {
        broadcast use group_deep;

        let tensor_type = &self.shards[id.0 as usize].tensor_type;
        let resolved = match target.resolve(
            &tensor_type.format.layout,
            tensor_type.shape.0.as_slice(),
        ) {
            Ok(resolved) => resolved,
            Err(e) => {
                return Err(LowLoweringError::Layout(e));
            },
        };
        if resolved.padded_shape.len() != tensor_type.shape.0.len() {
            return Err(LowLoweringError::InvalidOperatorPlan);
        }
        Ok(resolved.padded_shape[resolved.padded_shape.len() - 1])
    }

    fn streams_interleaved<M: Target>(
        &self,
        target: &M,
        outputs: &Vec<LowShardId>,
        requirements: &OperatorRequirements,
        inner_block: u32,
        column_block: u32,
    ) -> (r: LowLoweringResult<bool>)
        ensures
            r == streams_interleaved(
                target,
                self@.shards,
                outputs@,
                requirements@,
                inner_block,
                column_block,
            ),
            r is Ok ==> requirements.inputs@.len() >= 2,
    {
        broadcast use group_deep;

        let elements: u32 = match inner_block.checked_mul(column_block) {
            Some(elements) => elements,
            None => {
                return Err(LowLoweringError::IdOverflow);
            },
        };
        if requirements.inputs.len() < 2 {
            return Err(LowLoweringError::InvalidOperatorPlan);
        }
        let right = &requirements.inputs[1];
        assert(requirements@.inputs[1] == right@);
        let bytes: u32 = match elements.checked_mul(right.format.precision.bytes() as u32) {
            Some(bytes) => bytes,
            None => {
                return Err(LowLoweringError::IdOverflow);
            },
        };
        if right.format.precision != Precision::F16 {
            return Ok(false);
        }
        self.outputs_have_room(target, outputs, bytes, right.access_tail_bytes)
    }

    /// Lowers a product that keeps its outputs in place.
    pub fn lower_resident_gemm<M: Target>(
        &mut self,
        target: &M,
        operation: &MidOperation,
        kernels: &GemmRuns,
        inner_block: u32,
        column_block: u32,
        streamed: bool,
    ) -> (r: LowLoweringResult<()>)
        ensures
            did(
                r,
                final(self)@,
                lower_resident_gemm(
                    target,
                    old(self)@,
                    *operation,
                    kernels@,
                    inner_block,
                    column_block,
                    streamed,
                ),
            ),
    {
        broadcast use group_deep;

        if operation.inputs.len() != 2 {
            return Err(LowLoweringError::InvalidOperatorPlan);
        }
        if operation.results.len() != 1 {
            return Err(LowLoweringError::ResultArity);
        }
        if inner_block == 0 || column_block == 0 {
            return Err(LowLoweringError::InvalidOperatorPlan);
        }
        let lefts = self.value_shards(operation.inputs[0])?;
        let rights = self.value_shards(operation.inputs[1])?;
        let outputs = self.value_shards(operation.results[0])?;
        let left_rank = self.shard(lefts[0])?.tensor_type.shape.0.len();
        let output_rank = self.shard(outputs[0])?.tensor_type.shape.0.len();
        if left_rank < 2 || output_rank < 2 {
            return Err(LowLoweringError::InvalidOperatorPlan);
        }
        let inner: u32 = self.padded_axis(target, lefts[0])?;
        let columns: u32 = self.padded_axis(target, outputs[0])?;
        if inner % inner_block != 0 || columns % column_block != 0 || (columns == 0 && !streamed) {
            return Err(LowLoweringError::InvalidOperatorPlan);
        }
        let interleaved = if streamed {
            self.streams_interleaved(
                target,
                &outputs,
                kernels.requirements,
                inner_block,
                column_block,
            )?
        } else if kernels.requirements.inputs.len() < 2 {
            return Err(LowLoweringError::InvalidOperatorPlan);
        } else {
            false
        };
        if columns == 0 && inner != 0 {
            return Err(LowLoweringError::InvalidOperatorPlan);
        }
        let right = &kernels.requirements.inputs[1];
        assert(kernels@.requirements.inputs[1] == right@);
        let plan = GemmPlan {
            source: operation.source,
            left: operation.inputs[0],
            right: operation.inputs[1],
            output: operation.results[0],
            inner_block,
            column_block,
            inner_blocks: inner / inner_block,
            column_blocks: columns / column_block,
            left_rank,
            output_rank,
            access_tail: right.access_tail_bytes,
            local_staging: right.local_staging,
            streamed,
            interleaved,
        };
        proof {
            vstd::arithmetic::div_mod::lemma_fundamental_div_mod(
                inner as int,
                inner_block as int,
            );
            vstd::arithmetic::div_mod::lemma_fundamental_div_mod(
                columns as int,
                column_block as int,
            );
            assert(plan.column_blocks * column_block == columns) by (nonlinear_arith)
                requires
                    columns == column_block * plan.column_blocks + 0,
            ;
        }
        let ghost start = self@;
        let mut local: Vec<Staged> = Vec::new();
        let mut remote: Vec<Staged> = Vec::new();
        assert(local@ =~= Seq::<Staged>::empty());
        assert(remote@ =~= Seq::<Staged>::empty());
        let mut k: u32 = 0;
        while k < plan.inner_blocks
            invariant
                k <= plan.inner_blocks,
                gemm_passes_from(
                    target,
                    start,
                    plan,
                    kernels@,
                    rights@,
                    outputs@,
                    0,
                    Seq::empty(),
                    Seq::empty(),
                ) == gemm_passes_from(
                    target,
                    self@,
                    plan,
                    kernels@,
                    rights@,
                    outputs@,
                    k as int,
                    local@,
                    remote@,
                ),
            decreases plan.inner_blocks - k,
        {
            assert((k + 1) * inner_block <= inner) by (nonlinear_arith)
                requires
                    k + 1 <= plan.inner_blocks,
                    inner == inner_block * plan.inner_blocks + 0,
            ;
            let (more_local, more_remote) = self.gemm_pass(
                target,
                plan,
                kernels,
                &rights,
                &outputs,
                k,
                local,
                remote,
            )?;
            local = more_local;
            remote = more_remote;
            k += 1;
        }
        Ok(())
    }

    /// Lowers a product whose right operand is divided along the inner axis.
    pub fn lower_streamed_blocked_gemm<M: Target>(
        &mut self,
        target: &M,
        operation: &MidOperation,
        kernels: &GemmRuns,
        inner_block: u32,
        column_block: u32,
    ) -> (r: LowLoweringResult<()>)
        ensures
            did(
                r,
                final(self)@,
                lower_streamed_blocked_gemm(
                    target,
                    old(self)@,
                    *operation,
                    kernels@,
                    inner_block,
                    column_block,
                ),
            ),
    {
        self.lower_resident_gemm(target, operation, kernels, inner_block, column_block, true)
    }
}

} // verus!
