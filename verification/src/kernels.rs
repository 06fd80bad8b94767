//! Scheduling kernel runs. Batched products become one run for each matrix.

use crate::low::{
    KernelOperand, KernelRun, LowLoweringError, LowLoweringResult, LowShardId, RunModel,
    ShardModel, ShardView, TileKernel, ViewModel,
};
use crate::mid::KernelSpec;
use crate::model::{Model, copy_all, deep, group_deep};
use crate::state::{
    append_single_kernel, append_single_kernels_from, did, found, shard_of, LoweringState,
    StateModel, Step,
};
use crate::tensor::{AmpOrder, ElementOrder, ShardExtent};
use vstd::prelude::*;

verus! {

/// The dimensions `input` are broadcast to the trailing dimensions of `output`:
/// each one is the same or one.
pub open spec fn broadcasts(input: Seq<u32>, output: Seq<u32>) -> bool {
    &&& input.len() <= output.len()
    &&& forall|i: int|
        0 <= i < input.len() ==> #[trigger] input[i] == 1 || input[i] == output[i + output.len()
            - input.len()]
}

/// The coordinate of a matrix on a leading axis of an input. A dimension of one
/// is broadcast, so every matrix of the output uses its only element.
pub open spec fn matrix_coordinate(
    input_shape: Seq<u32>,
    output_shape: Seq<u32>,
    coordinates: Seq<u32>,
    axis: int,
) -> u32 {
    if input_shape[axis] == 1 {
        0
    } else {
        coordinates[axis + output_shape.len() - input_shape.len()]
    }
}

/// The coordinate names an element of the view, on a leading axis.
pub open spec fn selects_matrix(
    extents: Seq<ShardExtent>,
    input_shape: Seq<u32>,
    output_shape: Seq<u32>,
    coordinates: Seq<u32>,
    axis: int,
) -> bool {
    let coordinate = matrix_coordinate(input_shape, output_shape, coordinates, axis);
    &&& input_shape[axis] == 1 || axis + output_shape.len() - input_shape.len() < coordinates.len()
    &&& extents[axis].start <= coordinate < extents[axis].physical_end
}

/// One element of an axis.
pub open spec fn single(extent: ShardExtent, coordinate: u32) -> ShardExtent {
    ShardExtent {
        axis: extent.axis,
        start: coordinate,
        logical_end: (coordinate + 1) as u32,
        physical_end: (coordinate + 1) as u32,
    }
}

/// The rectangle of one matrix in a batch of matrices.
pub open spec fn matrix_extents(
    extents: Seq<ShardExtent>,
    input_shape: Seq<u32>,
    output_shape: Seq<u32>,
    coordinates: Seq<u32>,
) -> Result<Seq<ShardExtent>, LowLoweringError> {
    let axes = input_shape.len() - 2;
    if input_shape.len() < 2 || output_shape.len() < 2 || !broadcasts(
        input_shape.take(axes),
        output_shape.take(output_shape.len() - 2),
    ) || extents.len() < axes {
        Err(LowLoweringError::InvalidOperatorPlan)
    } else if exists|axis: int|
        0 <= axis < axes && !#[trigger] selects_matrix(
            extents,
            input_shape,
            output_shape,
            coordinates,
            axis,
        ) {
        Err(LowLoweringError::InvalidOperatorPlan)
    } else {
        Ok(
            Seq::new(
                extents.len(),
                |axis: int|
                    if axis < axes {
                        single(
                            extents[axis],
                            matrix_coordinate(input_shape, output_shape, coordinates, axis),
                        )
                    } else {
                        extents[axis]
                    },
            ),
        )
    }
}

fn broadcasts_to(input: &[u32], output: &[u32], trailing: usize) -> (r: bool)
    requires
        trailing <= input@.len(),
        trailing <= output@.len(),
    ensures
        r == broadcasts(
            input@.take(input@.len() - trailing),
            output@.take(output@.len() - trailing),
        ),
{
    let ghost narrow = input@.take(input@.len() - trailing);
    let ghost wide = output@.take(output@.len() - trailing);
    if input.len() > output.len() {
        return false;
    }
    let shift = output.len() - input.len();
    let mut i: usize = 0;
    while i < input.len() - trailing
        invariant
            i <= input@.len() - trailing,
            forall|k: int|
                0 <= k < i ==> #[trigger] narrow[k] == 1 || narrow[k] == wide[k + wide.len()
                    - narrow.len()],
        decreases input@.len() - trailing - i,
    {
        if input[i] != 1 && input[i] != output[i + shift] {
            assert(narrow[i as int] != 1 && narrow[i as int] != wide[i + wide.len() - narrow.len()]);
            return false;
        }
        assert(narrow[i as int] == input@[i as int]);
        assert(wide[i + wide.len() - narrow.len()] == output@[i + shift]);
        i += 1;
    }
    true
}

/// Restricts a view of a batch of matrices to one of them. A batch extent of
/// one is broadcast only when the corresponding tensor dimension is one. A view
/// that does not hold the matrix is left as it is.
pub fn narrow_gemm_matrix_view(
    view: &mut ShardView,
    input_shape: &[u32],
    output_shape: &[u32],
    output_coordinates: &[u32],
) -> (r: LowLoweringResult<()>)
    ensures
        final(view).shard == old(view).shard,
        match r {
            Ok(_) => {
                &&& matrix_extents(
                    old(view).extents@,
                    input_shape@,
                    output_shape@,
                    output_coordinates@,
                ) == Ok::<Seq<ShardExtent>, LowLoweringError>(final(view).extents@)
                &&& 2 <= input_shape@.len() <= output_shape@.len()
                &&& final(view).extents@.len() == old(view).extents@.len()
                &&& forall|axis: int|
                    0 <= axis < final(view).extents@.len() ==> {
                        let part = #[trigger] final(view).extents@[axis];
                        let whole = old(view).extents@[axis];
                        if axis < input_shape@.len() - 2 {
                            &&& part.axis == whole.axis
                            &&& part.start == (if input_shape@[axis] == 1 {
                                0
                            } else {
                                output_coordinates@[axis + output_shape@.len() - input_shape@.len()]
                            })
                            &&& part.logical_end == part.start + 1
                            &&& part.physical_end == part.start + 1
                        } else {
                            part == whole
                        }
                    }
            },
            Err(e) => matrix_extents(
                old(view).extents@,
                input_shape@,
                output_shape@,
                output_coordinates@,
            ) == Err::<Seq<ShardExtent>, LowLoweringError>(e) && final(view).extents@ == old(view).extents@,
        },
{
    let ghost whole = view.extents@;
    if input_shape.len() < 2 || output_shape.len() < 2 {
        return Err(LowLoweringError::InvalidOperatorPlan);
    }
    let axes = input_shape.len() - 2;
    if !broadcasts_to(input_shape, output_shape, 2) || view.extents.len() < axes {
        return Err(LowLoweringError::InvalidOperatorPlan);
    }
    assert(input_shape@.take(axes as int).len() <= output_shape@.take(
        output_shape@.len() - 2,
    ).len());
    let shift = output_shape.len() - input_shape.len();
    let mut extents: Vec<ShardExtent> = Vec::new();
    let mut axis: usize = 0;
    while axis < axes
        invariant
            axis <= axes,
            extents@.len() == axis,
            forall|k: int|
                0 <= k < axis ==> #[trigger] selects_matrix(
                    whole,
                    input_shape@,
                    output_shape@,
                    output_coordinates@,
                    k,
                ),
            forall|k: int|
                0 <= k < axis ==> #[trigger] extents@[k] == single(
                    whole[k],
                    matrix_coordinate(input_shape@, output_shape@, output_coordinates@, k),
                ),
        decreases axes - axis,
    {
        let extent: ShardExtent = view.extents[axis];
        let coordinate: u32 = if input_shape[axis] == 1 {
            0
        } else if axis + shift < output_coordinates.len() {
            output_coordinates[axis + shift]
        } else {
            assert(!selects_matrix(
                whole,
                input_shape@,
                output_shape@,
                output_coordinates@,
                axis as int,
            ));
            return Err(LowLoweringError::InvalidOperatorPlan);
        };
        if coordinate < extent.start || coordinate >= extent.physical_end {
            assert(!selects_matrix(
                whole,
                input_shape@,
                output_shape@,
                output_coordinates@,
                axis as int,
            ));
            return Err(LowLoweringError::InvalidOperatorPlan);
        }
        extents.push(
            ShardExtent {
                axis: extent.axis,
                start: coordinate,
                logical_end: coordinate + 1,
                physical_end: coordinate + 1,
            },
        );
        axis += 1;
    }
    while axis < view.extents.len()
        invariant
            axes <= axis <= view.extents@.len(),
            view.extents@ == whole,
            extents@.len() == axis,
            forall|k: int|
                0 <= k < axes ==> #[trigger] selects_matrix(
                    whole,
                    input_shape@,
                    output_shape@,
                    output_coordinates@,
                    k,
                ),
            forall|k: int|
                0 <= k < axes ==> #[trigger] extents@[k] == single(
                    whole[k],
                    matrix_coordinate(input_shape@, output_shape@, output_coordinates@, k),
                ),
            forall|k: int| axes <= k < axis ==> extents@[k] == whole[k],
        decreases view.extents@.len() - axis,
    {
        extents.push(view.extents[axis]);
        axis += 1;
    }
    proof {
        let expected = Seq::new(
            whole.len(),
            |axis: int|
                if axis < axes {
                    single(
                        whole[axis],
                        matrix_coordinate(input_shape@, output_shape@, output_coordinates@, axis),
                    )
                } else {
                    whole[axis]
                },
        );
        assert(extents@ =~= expected);
        assert forall|k: int| 0 <= k < axes implies (#[trigger] extents@[k]).logical_end
            == extents@[k].start + 1 && extents@[k].physical_end == extents@[k].start + 1 by {
            assert(selects_matrix(
                whole,
                input_shape@,
                output_shape@,
                output_coordinates@,
                k,
            ));
        }
    }
    view.extents = extents;
    Ok(())
}

/// One view of a batch of matrices restricted to one of them.
pub open spec fn matrix_view(
    shards: Seq<ShardModel>,
    view: ViewModel,
    output_shape: Seq<u32>,
    coordinates: Seq<u32>,
) -> Result<ViewModel, LowLoweringError> {
    match shard_of(shards, view.shard) {
        Err(e) => Err(e),
        Ok(shard) => match matrix_extents(
            view.extents,
            shard.tensor_type.shape,
            output_shape,
            coordinates,
        ) {
            Err(e) => Err(e),
            Ok(extents) => Ok(ViewModel { shard: view.shard, extents }),
        },
    }
}

/// `done` followed by the views from position `i` on, each restricted.
pub open spec fn matrix_views_from(
    shards: Seq<ShardModel>,
    views: Seq<ViewModel>,
    output_shape: Seq<u32>,
    coordinates: Seq<u32>,
    done: Seq<ViewModel>,
    i: int,
) -> Result<Seq<ViewModel>, LowLoweringError>
    decreases views.len() - i,
{
    if i >= views.len() {
        Ok(done)
    } else {
        match matrix_view(shards, views[i], output_shape, coordinates) {
            Err(e) => Err(e),
            Ok(view) => matrix_views_from(
                shards,
                views,
                output_shape,
                coordinates,
                done.push(view),
                i + 1,
            ),
        }
    }
}

/// `done` followed by the operands from position `i` on, each restricted.
pub open spec fn matrix_operands_from(
    shards: Seq<ShardModel>,
    operands: Seq<Seq<ViewModel>>,
    output_shape: Seq<u32>,
    coordinates: Seq<u32>,
    done: Seq<Seq<ViewModel>>,
    i: int,
) -> Result<Seq<Seq<ViewModel>>, LowLoweringError>
    decreases operands.len() - i,
{
    if i >= operands.len() {
        Ok(done)
    } else {
        match matrix_views_from(
            shards,
            operands[i],
            output_shape,
            coordinates,
            Seq::empty(),
            0,
        ) {
            Err(e) => Err(e),
            Ok(views) => matrix_operands_from(
                shards,
                operands,
                output_shape,
                coordinates,
                done.push(views),
                i + 1,
            ),
        }
    }
}

/// The run of one matrix of a batched run.
pub open spec fn matrix_run(
    shards: Seq<ShardModel>,
    run: RunModel,
    coordinates: Seq<u32>,
) -> Result<RunModel, LowLoweringError> {
    match shard_of(shards, run.output.shard) {
        Err(e) => Err(e),
        Ok(shard) => {
            let shape = shard.tensor_type.shape;
            match matrix_view(shards, run.output, shape, coordinates) {
                Err(e) => Err(e),
                Ok(output) => match matrix_operands_from(
                    shards,
                    run.inputs,
                    shape,
                    coordinates,
                    Seq::empty(),
                    0,
                ) {
                    Err(e) => Err(e),
                    Ok(inputs) => Ok(RunModel { metadata: run.metadata, inputs, output }),
                },
            }
        },
    }
}

/// `done` followed by the runs of the matrices whose first coordinates are
/// `coordinates`, in lexicographic order.
pub open spec fn matrix_runs_below(
    shards: Seq<ShardModel>,
    run: RunModel,
    axes: nat,
    coordinates: Seq<u32>,
    done: Seq<RunModel>,
) -> Result<Seq<RunModel>, LowLoweringError>
    decreases axes - coordinates.len(), 1int, 0int,
{
    if coordinates.len() >= axes {
        match matrix_run(shards, run, coordinates) {
            Err(e) => Err(e),
            Ok(matrix) => Ok(done.push(matrix)),
        }
    } else {
        let extent = run.output.extents[coordinates.len() as int];
        if extent.logical_end != extent.physical_end {
            Err(LowLoweringError::InvalidOperatorPlan)
        } else {
            matrix_runs_along(
                shards,
                run,
                axes,
                coordinates,
                extent.start as int,
                extent.physical_end as int,
                done,
            )
        }
    }
}

/// `done` followed by the runs of the matrices whose next coordinate is in
/// `coordinate..end`.
pub open spec fn matrix_runs_along(
    shards: Seq<ShardModel>,
    run: RunModel,
    axes: nat,
    coordinates: Seq<u32>,
    coordinate: int,
    end: int,
    done: Seq<RunModel>,
) -> Result<Seq<RunModel>, LowLoweringError>
    decreases axes - coordinates.len(), 0int, end - coordinate,
{
    if coordinate >= end || coordinates.len() >= axes {
        Ok(done)
    } else {
        match matrix_runs_below(shards, run, axes, coordinates.push(coordinate as u32), done) {
            Err(e) => Err(e),
            Ok(more) => matrix_runs_along(
                shards,
                run,
                axes,
                coordinates,
                coordinate + 1,
                end,
                more,
            ),
        }
    }
}

/// The storage of the output joins the rows of all matrices, so one product
/// computes them together.
pub open spec fn flattens_outer_rows(shards: Seq<ShardModel>, output: LowShardId) -> bool {
    output.0 < shards.len() && match shards[output.0 as int].tensor_type.format.layout.order {
        ElementOrder::Amp(AmpOrder::Left) => true,
        ElementOrder::Amp(AmpOrder::Output) => true,
        _ => false,
    }
}

/// Whether a run is scheduled matrix by matrix.
pub open spec fn is_batched_product(shards: Seq<ShardModel>, run: RunModel) -> bool {
    run.metadata.kernel is Gemm && run.output.extents.len() > 2 && !flattens_outer_rows(
        shards,
        run.output.shard,
    )
}

/// Schedules a kernel run: a batched product as one run for each of its
/// matrices where there are several, and any other run as it is.
pub open spec fn append_kernel(s: StateModel, tile: u16, run: RunModel) -> Step {
    if is_batched_product(s.shards, run) {
        match matrix_runs_below(
            s.shards,
            run,
            (run.output.extents.len() - 2) as nat,
            Seq::empty(),
            Seq::empty(),
        ) {
            Err(e) => Err(e),
            Ok(matrices) => if matrices.len() > 1 {
                append_single_kernels_from(s, tile, matrices, 0)
            } else {
                append_single_kernel(s, tile, run)
            },
        }
    } else {
        append_single_kernel(s, tile, run)
    }
}

/// Schedules the runs from position `i` on, in order.
pub open spec fn append_kernels_from(s: StateModel, runs: Seq<(u16, RunModel)>, i: int) -> Step
    decreases runs.len() - i,
{
    if i >= runs.len() {
        Ok(s)
    } else {
        match append_kernel(s, runs[i].0, runs[i].1) {
            Ok(next) => append_kernels_from(next, runs, i + 1),
            Err(e) => Err(e),
        }
    }
}

impl LoweringState {
    fn matrix_view(&self, view: &ShardView, output_shape: &[u32], coordinates: &[u32]) -> (r:
        LowLoweringResult<ShardView>)
        ensures
            found(r, matrix_view(self@.shards, view@, output_shape@, coordinates@)),
    {
        let shard = self.shard(view.shard)?;
        let mut matrix = view.duplicate();
        match narrow_gemm_matrix_view(
            &mut matrix,
            shard.tensor_type.shape.0.as_slice(),
            output_shape,
            coordinates,
        ) {
            Ok(_) => Ok(matrix),
            Err(e) => Err(e),
        }
    }

    fn matrix_run(&self, run: &KernelRun, coordinates: &[u32]) -> (r: LowLoweringResult<KernelRun>)
        ensures
            found(r, matrix_run(self@.shards, run@, coordinates@)),
    {
        broadcast use group_deep;

        let shape = match self.shard(run.output.shard) {
            Ok(shard) => copy_all(shard.tensor_type.shape.0.as_slice()),
            Err(e) => {
                return Err(e);
            },
        };
        let output = self.matrix_view(&run.output, shape.as_slice(), coordinates)?;
        let ghost operands = deep(run.inputs@);
        let mut inputs: Vec<KernelOperand> = Vec::new();
        let mut i: usize = 0;
        while i < run.inputs.len()
            invariant
                i <= run.inputs@.len(),
                matrix_operands_from(
                    self@.shards,
                    operands,
                    shape@,
                    coordinates@,
                    Seq::empty(),
                    0,
                ) == matrix_operands_from(
                    self@.shards,
                    operands,
                    shape@,
                    coordinates@,
                    deep(inputs@),
                    i as int,
                ),
            decreases run.inputs@.len() - i,
        {
            let operand = &run.inputs[i];
            assert(operands[i as int] == operand@);
            let mut views: Vec<ShardView> = Vec::new();
            let mut j: usize = 0;
            while j < operand.views.len()
                invariant
                    j <= operand.views@.len(),
                    matrix_views_from(
                        self@.shards,
                        operand@,
                        shape@,
                        coordinates@,
                        Seq::empty(),
                        0,
                    ) == matrix_views_from(
                        self@.shards,
                        operand@,
                        shape@,
                        coordinates@,
                        deep(views@),
                        j as int,
                    ),
                decreases operand.views@.len() - j,
            {
                assert(operand@[j as int] == operand.views@[j as int]@);
                match self.matrix_view(&operand.views[j], shape.as_slice(), coordinates) {
                    Ok(view) => {
                        views.push(view);
                    },
                    Err(e) => {
                        return Err(e);
                    },
                }
                j += 1;
            }
            let narrowed = KernelOperand { views };
            inputs.push(narrowed);
            i += 1;
        }
        Ok(KernelRun { metadata: run.metadata.clone(), inputs, output })
    }

    fn split_gemm_matrices(
        &self,
        run: &KernelRun,
        axes: usize,
        coordinates: &mut Vec<u32>,
        runs: &mut Vec<KernelRun>,
    ) -> (r: LowLoweringResult<()>)
        requires
            old(coordinates)@.len() <= axes <= run.output.extents@.len(),
        ensures
            match r {
                Ok(_) => matrix_runs_below(
                    self@.shards,
                    run@,
                    axes as nat,
                    old(coordinates)@,
                    deep(old(runs)@),
                ) == Ok::<Seq<RunModel>, LowLoweringError>(deep(final(runs)@)) && final(coordinates)@ == old(coordinates)@,
                Err(e) => matrix_runs_below(
                    self@.shards,
                    run@,
                    axes as nat,
                    old(coordinates)@,
                    deep(old(runs)@),
                ) == Err::<Seq<RunModel>, LowLoweringError>(e),
            },
        decreases axes - old(coordinates)@.len(),
    {
        broadcast use group_deep;

        let ghost prefix = coordinates@;
        let ghost before = deep(runs@);
        if coordinates.len() >= axes {
            return match self.matrix_run(run, coordinates.as_slice()) {
                Ok(matrix) => {
                    runs.push(matrix);
                    Ok(())
                },
                Err(e) => Err(e),
            };
        }
        let extent: ShardExtent = run.output.extents[coordinates.len()];
        if extent.logical_end != extent.physical_end {
            return Err(LowLoweringError::InvalidOperatorPlan);
        }
        let mut coordinate: u32 = extent.start;
        while coordinate < extent.physical_end
            invariant
                extent.start <= coordinate,
                coordinates@ == prefix,
                matrix_runs_below(self@.shards, run@, axes as nat, prefix, before)
                    == matrix_runs_along(
                    self@.shards,
                    run@,
                    axes as nat,
                    prefix,
                    coordinate as int,
                    extent.physical_end as int,
                    deep(runs@),
                ),
            decreases extent.physical_end - coordinate,
        {
            coordinates.push(coordinate);
            self.split_gemm_matrices(run, axes, coordinates, runs)?;
            let _ = coordinates.pop();
            assert(coordinates@ =~= prefix);
            coordinate += 1;
        }
        Ok(())
    }

    pub fn append_kernel(&mut self, tile: u16, run: KernelRun) -> (r: LowLoweringResult<()>)
        ensures
            did(r, final(self)@, append_kernel(old(self)@, tile, run@)),
    {
        broadcast use group_deep;

        let is_product = match &run.metadata.kernel {
            TileKernel::Planned(KernelSpec::Gemm { .. }) => true,
            _ => false,
        };
        assert(is_product == run@.metadata.kernel is Gemm);
        let flattens = match self.shard(run.output.shard) {
            Ok(shard) => match shard.tensor_type.format.layout.order {
                ElementOrder::Amp(AmpOrder::Left) => true,
                ElementOrder::Amp(AmpOrder::Output) => true,
                _ => false,
            },
            Err(_) => false,
        };
        if is_product && run.output.extents.len() > 2 && !flattens {
            let axes = run.output.extents.len() - 2;
            let mut coordinates: Vec<u32> = Vec::new();
            let mut matrices: Vec<KernelRun> = Vec::new();
            self.split_gemm_matrices(&run, axes, &mut coordinates, &mut matrices)?;
            if matrices.len() > 1 {
                let ghost start = self@;
                let ghost model = deep(matrices@);
                let mut i: usize = 0;
                while i < matrices.len()
                    invariant
                        i <= matrices@.len(),
                        append_single_kernels_from(start, tile, model, 0)
                            == append_single_kernels_from(self@, tile, model, i as int),
                    decreases matrices@.len() - i,
                {
                    let matrix = matrices[i].duplicate();
                    assert(model[i as int] == matrix@);
                    self.append_single_kernel(tile, matrix)?;
                    i += 1;
                }
                return Ok(());
            }
        }
        self.append_single_kernel(tile, run)
    }

    pub fn append_kernels(&mut self, runs: Vec<(u16, KernelRun)>) -> (r: LowLoweringResult<()>)
        ensures
            did(r, final(self)@, append_kernels_from(old(self)@, deep(runs@), 0)),
    {
        broadcast use group_deep;

        let ghost start = self@;
        let ghost model = deep(runs@);
        let mut i: usize = 0;
        while i < runs.len()
            invariant
                i <= runs@.len(),
                append_kernels_from(start, model, 0) == append_kernels_from(
                    self@,
                    model,
                    i as int,
                ),
            decreases runs@.len() - i,
        {
            let run = runs[i].1.duplicate();
            let tile: u16 = runs[i].0;
            assert(model[i as int] == (tile, run@));
            self.append_kernel(tile, run)?;
            i += 1;
        }
        Ok(())
    }
}

} // verus!
