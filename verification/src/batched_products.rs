//! What a batched product is scheduled as: one run for each matrix of its
//! output, each of one element on every leading axis.

use crate::carriage::schedules;
use crate::kernels::{
    append_kernel, matrix_operands_from, matrix_run, matrix_runs_along, matrix_runs_below,
    matrix_view, matrix_views_from, selects_matrix,
};
use crate::low::{KernelRunId, RunModel, ShardModel, TileWork, ViewModel};
use crate::product_coverage::{lemma_append_run, makes_at, runs_at, scheduled_runs};
use crate::state::{append_single_kernel, append_single_kernels_from, StateModel};
use crate::tensor::{AmpOrder, ElementOrder, ShardExtent};
use vstd::prelude::*;

verus! {

/// A view of a known shard has an extent for each axis of the shard's tensor,
/// and what it holds of the tensor lies within the tensor.
pub open spec fn lies_within(shards: Seq<ShardModel>, view: ViewModel) -> bool {
    &&& view.shard.0 < shards.len()
    &&& view.extents.len() == shards[view.shard.0 as int].tensor_type.shape.len()
    &&& forall|a: int|
        0 <= a < view.extents.len() ==> (#[trigger] view.extents[a]).logical_end
            <= shards[view.shard.0 as int].tensor_type.shape[a]
}

/// The coordinates, one for each axis but the last two, name a matrix of a view.
pub open spec fn names_matrix(view: ViewModel, at: Seq<u32>) -> bool {
    &&& at.len() == view.extents.len() - 2
    &&& forall|a: int|
        0 <= a < at.len() ==> view.extents[a].start <= (#[trigger] at[a])
            < view.extents[a].logical_end
}

/// The extent is that of one element of an axis.
pub open spec fn is_element(part: ShardExtent, whole: ShardExtent, at: int) -> bool {
    &&& part.axis == whole.axis
    &&& part.start == at
    &&& part.logical_end == at + 1
    &&& part.physical_end == at + 1
}

/// The view is one matrix of the output: one element of each leading axis, and
/// all that the output has of the last two.
pub open spec fn is_output_matrix(part: ViewModel, whole: ViewModel, at: Seq<u32>) -> bool {
    &&& part.shard == whole.shard
    &&& part.extents.len() == whole.extents.len()
    &&& forall|a: int|
        0 <= a < part.extents.len() ==> if a < part.extents.len() - 2 {
            is_element(#[trigger] part.extents[a], whole.extents[a], at[a] as int)
        } else {
            part.extents[a] == whole.extents[a]
        }
}

/// The view is the matrix of an operand that belongs to a matrix of the output.
/// The operand's leading axes are the last ones of the output's. On each, it is
/// the element that the output's matrix has there, or the only element of a
/// dimension of one.
pub open spec fn is_input_matrix(
    shards: Seq<ShardModel>,
    part: ViewModel,
    whole: ViewModel,
    at: Seq<u32>,
) -> bool {
    let shape = shards[whole.shard.0 as int].tensor_type.shape;
    let leading = shape.len() - 2;
    &&& part.shard == whole.shard
    &&& 0 <= leading <= at.len()
    &&& leading <= part.extents.len()
    &&& part.extents.len() == whole.extents.len()
    &&& forall|a: int|
        0 <= a < part.extents.len() ==> if a < leading {
            is_element(
                #[trigger] part.extents[a],
                whole.extents[a],
                if shape[a] == 1 {
                    0
                } else {
                    at[a + at.len() - leading] as int
                },
            )
        } else {
            part.extents[a] == whole.extents[a]
        }
}

/// The run computes one matrix of the output of a batched run, from the matrices
/// of its operands that belong to it.
pub open spec fn is_matrix_run(
    shards: Seq<ShardModel>,
    part: RunModel,
    whole: RunModel,
    at: Seq<u32>,
) -> bool {
    &&& part.metadata == whole.metadata
    &&& is_output_matrix(part.output, whole.output, at)
    &&& part.inputs.len() == whole.inputs.len()
    &&& forall|i: int|
        0 <= i < part.inputs.len() ==> (#[trigger] part.inputs[i]).len() == whole.inputs[i].len()
    &&& forall|i: int, k: int|
        0 <= i < part.inputs.len() && 0 <= k < part.inputs[i].len() ==> is_input_matrix(
            shards,
            #[trigger] part.inputs[i][k],
            whole.inputs[i][k],
            at,
        )
}

/// The coordinates are those of all matrices of a view, each once.
pub open spec fn names_all_matrices(view: ViewModel, all: Seq<Seq<u32>>) -> bool {
    &&& forall|j: int| 0 <= j < all.len() ==> names_matrix(view, #[trigger] all[j])
    &&& forall|at: Seq<u32>| #[trigger] names_matrix(view, at) ==> all.contains(at)
    &&& forall|j: int, k: int|
        0 <= j < k < all.len() ==> (#[trigger] all[j]) != (#[trigger] all[k])
}

/// The views hold different elements on some axis.
pub open spec fn are_disjoint(a: ViewModel, b: ViewModel) -> bool {
    exists|axis: int|
        0 <= axis < a.extents.len() && axis < b.extents.len() && (
        (#[trigger] a.extents[axis]).physical_end <= b.extents[axis].start
            || b.extents[axis].physical_end <= a.extents[axis].start)
}

/// The runs compute the matrices of a batched run, one each, and no two of them
/// write the same element.
pub open spec fn are_matrix_runs(
    shards: Seq<ShardModel>,
    parts: Seq<RunModel>,
    whole: RunModel,
    all: Seq<Seq<u32>>,
) -> bool {
    &&& names_all_matrices(whole.output, all)
    &&& parts.len() == all.len()
    &&& forall|j: int|
        0 <= j < parts.len() ==> is_matrix_run(shards, #[trigger] parts[j], whole, all[j])
    &&& forall|j: int, k: int|
        0 <= j < k < parts.len() ==> are_disjoint(
            (#[trigger] parts[j]).output,
            (#[trigger] parts[k]).output,
        )
}

/// A product whose output has more than two axes and does not store the rows of
/// all its matrices together.
pub open spec fn is_batched(shards: Seq<ShardModel>, run: RunModel) -> bool {
    &&& run.metadata.kernel is Gemm
    &&& run.output.extents.len() > 2
    &&& shards[run.output.shard.0 as int].tensor_type.format.layout.order != ElementOrder::Amp(
        AmpOrder::Left,
    )
    &&& shards[run.output.shard.0 as int].tensor_type.format.layout.order != ElementOrder::Amp(
        AmpOrder::Output,
    )
}

/// The runs that a run is scheduled as: its matrices where it is a batched
/// product of several, and otherwise itself.
pub open spec fn stand_for(shards: Seq<ShardModel>, parts: Seq<RunModel>, run: RunModel) -> bool {
    if is_batched(shards, run) {
        exists|all: Seq<Seq<u32>>|
            #[trigger] names_all_matrices(run.output, all) && if all.len() > 1 {
                are_matrix_runs(shards, parts, run, all)
            } else {
                parts == seq![run]
            }
    } else {
        parts == seq![run]
    }
}

// ---------------------------------------------------------------- one matrix

proof fn lemma_input_matrix(
    shards: Seq<ShardModel>,
    view: ViewModel,
    output_shape: Seq<u32>,
    at: Seq<u32>,
)
    requires
        at.len() == output_shape.len() - 2,
    ensures
        match matrix_view(shards, view, output_shape, at) {
            Ok(part) => is_input_matrix(shards, part, view, at),
            Err(_) => true,
        },
{
    if let Ok(part) = matrix_view(shards, view, output_shape, at) {
        let shape = shards[view.shard.0 as int].tensor_type.shape;
        let leading = shape.len() - 2;
        assert(shape.take(leading).len() <= output_shape.take(output_shape.len() - 2).len());
        assert forall|a: int| 0 <= a < part.extents.len() implies if a < leading {
            is_element(
                #[trigger] part.extents[a],
                view.extents[a],
                if shape[a] == 1 {
                    0
                } else {
                    at[a + at.len() - leading] as int
                },
            )
        } else {
            part.extents[a] == view.extents[a]
        } by {
            if a < leading {
                assert(selects_matrix(view.extents, shape, output_shape, at, a));
            }
        }
    }
}

proof fn lemma_output_matrix(shards: Seq<ShardModel>, view: ViewModel, at: Seq<u32>)
    requires
        lies_within(shards, view),
        names_matrix(view, at),
    ensures
        match matrix_view(shards, view, shards[view.shard.0 as int].tensor_type.shape, at) {
            Ok(part) => is_output_matrix(part, view, at),
            Err(_) => true,
        },
{
    let shape = shards[view.shard.0 as int].tensor_type.shape;
    lemma_input_matrix(shards, view, shape, at);
    if let Ok(part) = matrix_view(shards, view, shape, at) {
        assert forall|a: int| 0 <= a < part.extents.len() implies if a < part.extents.len() - 2 {
            is_element(#[trigger] part.extents[a], view.extents[a], at[a] as int)
        } else {
            part.extents[a] == view.extents[a]
        } by {
            if a < part.extents.len() - 2 {
                assert(view.extents[a].start <= at[a] < view.extents[a].logical_end);
            }
        }
    }
}

proof fn lemma_views(
    shards: Seq<ShardModel>,
    views: Seq<ViewModel>,
    output_shape: Seq<u32>,
    at: Seq<u32>,
    done: Seq<ViewModel>,
    i: int,
)
    requires
        at.len() == output_shape.len() - 2,
        0 <= i <= views.len(),
        done.len() == i,
        forall|k: int| 0 <= k < i ==> is_input_matrix(shards, #[trigger] done[k], views[k], at),
    ensures
        match matrix_views_from(shards, views, output_shape, at, done, i) {
            Ok(parts) => parts.len() == views.len() && forall|k: int|
                0 <= k < parts.len() ==> is_input_matrix(
                    shards,
                    #[trigger] parts[k],
                    views[k],
                    at,
                ),
            Err(_) => true,
        },
    decreases views.len() - i,
{
    if i < views.len() {
        lemma_input_matrix(shards, views[i], output_shape, at);
        if let Ok(view) = matrix_view(shards, views[i], output_shape, at) {
            lemma_views(shards, views, output_shape, at, done.push(view), i + 1);
        }
    }
}

/// The first operands are restricted to a matrix.
spec fn operands_restricted(
    shards: Seq<ShardModel>,
    operands: Seq<Seq<ViewModel>>,
    at: Seq<u32>,
    parts: Seq<Seq<ViewModel>>,
) -> bool {
    &&& parts.len() <= operands.len()
    &&& forall|i: int|
        0 <= i < parts.len() ==> (#[trigger] parts[i]).len() == operands[i].len()
    &&& forall|i: int, k: int|
        0 <= i < parts.len() && 0 <= k < parts[i].len() ==> is_input_matrix(
            shards,
            #[trigger] parts[i][k],
            operands[i][k],
            at,
        )
}

proof fn lemma_operands(
    shards: Seq<ShardModel>,
    operands: Seq<Seq<ViewModel>>,
    output_shape: Seq<u32>,
    at: Seq<u32>,
    done: Seq<Seq<ViewModel>>,
    i: int,
)
    requires
        at.len() == output_shape.len() - 2,
        0 <= i <= operands.len(),
        done.len() == i,
        operands_restricted(shards, operands, at, done),
    ensures
        match matrix_operands_from(shards, operands, output_shape, at, done, i) {
            Ok(parts) => parts.len() == operands.len() && operands_restricted(
                shards,
                operands,
                at,
                parts,
            ),
            Err(_) => true,
        },
    decreases operands.len() - i,
{
    if i < operands.len() {
        lemma_views(shards, operands[i], output_shape, at, Seq::empty(), 0);
        if let Ok(views) = matrix_views_from(
            shards,
            operands[i],
            output_shape,
            at,
            Seq::empty(),
            0,
        ) {
            let more = done.push(views);
            assert forall|j: int, k: int|
                0 <= j < more.len() && 0 <= k < more[j].len() implies is_input_matrix(
                shards,
                #[trigger] more[j][k],
                operands[j][k],
                at,
            ) by {
                if j < i {
                    assert(more[j] == done[j]);
                    assert(is_input_matrix(shards, done[j][k], operands[j][k], at));
                }
            }
            lemma_operands(shards, operands, output_shape, at, more, i + 1);
        }
    }
}

proof fn lemma_matrix_run(shards: Seq<ShardModel>, run: RunModel, at: Seq<u32>)
    requires
        lies_within(shards, run.output),
        names_matrix(run.output, at),
    ensures
        match matrix_run(shards, run, at) {
            Ok(part) => is_matrix_run(shards, part, run, at),
            Err(_) => true,
        },
{
    let shape = shards[run.output.shard.0 as int].tensor_type.shape;
    lemma_output_matrix(shards, run.output, at);
    lemma_operands(shards, run.inputs, shape, at, Seq::empty(), 0);
}

// ---------------------------------------------------------------- all matrices

/// The coordinates start with those given.
spec fn starts_with(at: Seq<u32>, first: Seq<u32>) -> bool {
    &&& first.len() <= at.len()
    &&& forall|a: int| 0 <= a < first.len() ==> #[trigger] at[a] == first[a]
}

/// The coordinates are those of the matrices with the given first ones, and with
/// the next one from `start` on, each once.
spec fn names_from(
    view: ViewModel,
    first: Seq<u32>,
    start: int,
    all: Seq<Seq<u32>>,
) -> bool {
    &&& forall|j: int|
        0 <= j < all.len() ==> names_matrix(view, #[trigger] all[j]) && starts_with(all[j], first)
            && (first.len() < all[j].len() ==> start <= all[j][first.len() as int])
    &&& forall|at: Seq<u32>| #[trigger]
        names_matrix(view, at) && starts_with(at, first) && (first.len() < at.len() ==> start
            <= at[first.len() as int]) ==> all.contains(at)
    &&& forall|j: int, k: int|
        0 <= j < k < all.len() ==> (#[trigger] all[j]) != (#[trigger] all[k])
}

/// The runs from `from` on are those of the matrices.
spec fn runs_of(
    shards: Seq<ShardModel>,
    run: RunModel,
    runs: Seq<RunModel>,
    from: int,
    all: Seq<Seq<u32>>,
) -> bool {
    &&& runs.len() == from + all.len()
    &&& forall|j: int|
        0 <= j < all.len() ==> is_matrix_run(shards, runs[from + j], run, #[trigger] all[j])
}

spec fn first_named(view: ViewModel, first: Seq<u32>) -> bool {
    &&& first.len() <= view.extents.len() - 2
    &&& forall|a: int|
        0 <= a < first.len() ==> view.extents[a].start <= (#[trigger] first[a])
            < view.extents[a].logical_end
}

proof fn lemma_runs_below(
    shards: Seq<ShardModel>,
    run: RunModel,
    axes: nat,
    first: Seq<u32>,
    done: Seq<RunModel>,
) -> (all: Seq<Seq<u32>>)
    requires
        lies_within(shards, run.output),
        run.output.extents.len() >= 2,
        axes == run.output.extents.len() - 2,
        first_named(run.output, first),
    ensures
        match matrix_runs_below(shards, run, axes, first, done) {
            Ok(runs) => {
                &&& names_from(run.output, first, 0, all)
                &&& done.is_prefix_of(runs)
                &&& runs_of(shards, run, runs, done.len() as int, all)
            },
            Err(_) => true,
        },
    decreases axes - first.len(), 1int, 0int,
{
    if first.len() >= axes {
        assert(names_matrix(run.output, first));
        lemma_matrix_run(shards, run, first);
        let all = seq![first];
        assert(all[0] == first);
        if let Ok(runs) = matrix_runs_below(shards, run, axes, first, done) {
            assert forall|at: Seq<u32>| #[trigger]
                names_matrix(run.output, at) && starts_with(at, first) implies all.contains(
                at,
            ) by {
                assert(at =~= first);
                assert(all[0] == at);
            }
            assert(done =~= runs.take(done.len() as int));
        }
        all
    } else {
        let extent = run.output.extents[first.len() as int];
        if extent.logical_end != extent.physical_end {
            Seq::empty()
        } else {
            let all = lemma_runs_along(
                shards,
                run,
                axes,
                first,
                extent.start as int,
                extent.physical_end as int,
                done,
            );
            if let Ok(runs) = matrix_runs_below(shards, run, axes, first, done) {
                assert forall|at: Seq<u32>| #[trigger]
                    names_matrix(run.output, at) && starts_with(at, first) implies all.contains(
                    at,
                ) by {
                    assert(extent.start <= at[first.len() as int]);
                }
            }
            all
        }
    }
}

proof fn lemma_runs_along(
    shards: Seq<ShardModel>,
    run: RunModel,
    axes: nat,
    first: Seq<u32>,
    start: int,
    end: int,
    done: Seq<RunModel>,
) -> (all: Seq<Seq<u32>>)
    requires
        lies_within(shards, run.output),
        run.output.extents.len() >= 2,
        axes == run.output.extents.len() - 2,
        first_named(run.output, first),
        first.len() < axes,
        end == run.output.extents[first.len() as int].logical_end,
        run.output.extents[first.len() as int].start <= start,
    ensures
        match matrix_runs_along(shards, run, axes, first, start, end, done) {
            Ok(runs) => {
                &&& names_from(run.output, first, start, all)
                &&& done.is_prefix_of(runs)
                &&& runs_of(shards, run, runs, done.len() as int, all)
            },
            Err(_) => true,
        },
    decreases axes - first.len(), 0int, end - start,
{
    let next = first.len() as int;
    if start >= end {
        assert(done =~= done.take(done.len() as int));
        assert forall|at: Seq<u32>| #[trigger]
            names_matrix(run.output, at) && starts_with(at, first) && start
                <= at[next] implies Seq::<Seq<u32>>::empty().contains(at) by {
            assert(at[next] < run.output.extents[next].logical_end);
        }
        Seq::empty()
    } else {
        let longer = first.push(start as u32);
        assert(first_named(run.output, longer)) by {
            assert forall|a: int| 0 <= a < longer.len() implies run.output.extents[a].start <= (
            #[trigger] longer[a]) < run.output.extents[a].logical_end by {
                if a < first.len() {
                    assert(longer[a] == first[a]);
                }
            }
        }
        let here = lemma_runs_below(shards, run, axes, longer, done);
        if let Ok(more) = matrix_runs_below(shards, run, axes, longer, done) {
            let rest = lemma_runs_along(shards, run, axes, first, start + 1, end, more);
            let all = here + rest;
            if let Ok(runs) = matrix_runs_along(shards, run, axes, first, start, end, done) {
                lemma_joined(run.output, first, longer, start, here, rest);
                assert forall|k: int| 0 <= k < done.len() implies done[k] == runs[k] by {
                    assert(done[k] == more[k]);
                    assert(more[k] == runs[k]);
                }
                assert(done =~= runs.take(done.len() as int));
                let from = done.len() as int;
                assert forall|j: int| 0 <= j < all.len() implies is_matrix_run(
                    shards,
                    runs[from + j],
                    run,
                    #[trigger] all[j],
                ) by {
                    if j < here.len() {
                        assert(is_matrix_run(shards, more[from + j], run, here[j]));
                        assert(more[from + j] == runs[from + j]);
                    } else {
                        let k = j - here.len();
                        assert(is_matrix_run(shards, runs[more.len() + k], run, rest[k]));
                        assert(more.len() + k == from + j);
                    }
                }
            }
            all
        } else {
            Seq::empty()
        }
    }
}

/// The coordinates with the next one at `start` and those with it beyond are all
/// that have it there or beyond.
proof fn lemma_joined(
    view: ViewModel,
    first: Seq<u32>,
    longer: Seq<u32>,
    start: int,
    here: Seq<Seq<u32>>,
    rest: Seq<Seq<u32>>,
)
    requires
        0 <= start <= u32::MAX,
        first.len() < view.extents.len() - 2,
        longer == first.push(start as u32),
        names_from(view, longer, 0, here),
        names_from(view, first, start + 1, rest),
    ensures
        names_from(view, first, start, here + rest),
{
    let all = here + rest;
    let next = first.len() as int;
    assert forall|j: int| 0 <= j < here.len() implies (#[trigger] here[j])[next] == start by {
        assert(starts_with(here[j], longer));
        assert(here[j][next] == longer[next]);
    }
    assert forall|j: int| 0 <= j < all.len() implies names_matrix(view, #[trigger] all[j])
        && starts_with(all[j], first) && start <= all[j][next] by {
        if j < here.len() {
            assert(all[j] == here[j]);
            assert(starts_with(here[j], longer));
            assert forall|a: int| 0 <= a < first.len() implies #[trigger] all[j][a]
                == first[a] by {
                assert(here[j][a] == longer[a]);
            }
        } else {
            assert(all[j] == rest[j - here.len()]);
        }
    }
    assert forall|at: Seq<u32>| #[trigger]
        names_matrix(view, at) && starts_with(at, first) && start <= at[next] implies all.contains(
        at,
    ) by {
        if at[next] == start {
            assert(starts_with(at, longer)) by {
                assert forall|a: int| 0 <= a < longer.len() implies #[trigger] at[a]
                    == longer[a] by {
                    if a < first.len() {
                        assert(at[a] == first[a]);
                    }
                }
            }
            assert(here.contains(at));
            let j = choose|j: int| 0 <= j < here.len() && here[j] == at;
            assert(all[j] == at);
        } else {
            assert(rest.contains(at));
            let j = choose|j: int| 0 <= j < rest.len() && rest[j] == at;
            assert(all[here.len() + j] == at);
        }
    }
    assert forall|j: int, k: int| 0 <= j < k < all.len() implies (#[trigger] all[j]) != (
    #[trigger] all[k]) by {
        if k < here.len() {
            assert(here[j] != here[k]);
        } else if j >= here.len() {
            assert(rest[j - here.len()] != rest[k - here.len()]);
        } else {
            assert(all[j] == here[j]);
            assert(all[k] == rest[k - here.len()]);
            assert(here[j][next] == start);
            assert(start + 1 <= rest[k - here.len()][next]);
        }
    }
}

proof fn lemma_matrices_are_disjoint(
    shards: Seq<ShardModel>,
    parts: Seq<RunModel>,
    whole: RunModel,
    all: Seq<Seq<u32>>,
    j: int,
    k: int,
)
    requires
        names_all_matrices(whole.output, all),
        parts.len() == all.len(),
        0 <= j < k < parts.len(),
        is_matrix_run(shards, parts[j], whole, all[j]),
        is_matrix_run(shards, parts[k], whole, all[k]),
    ensures
        are_disjoint(parts[j].output, parts[k].output),
{
    let a = all[j];
    let b = all[k];
    assert(a != b);
    assert(names_matrix(whole.output, a) && names_matrix(whole.output, b));
    if forall|axis: int| 0 <= axis < a.len() ==> a[axis] == b[axis] {
        assert(a =~= b);
    }
    let axis = choose|axis: int| 0 <= axis < a.len() && a[axis] != b[axis];
    let one = parts[j].output.extents[axis];
    let other = parts[k].output.extents[axis];
    assert(is_element(one, whole.output.extents[axis], a[axis] as int));
    assert(is_element(other, whole.output.extents[axis], b[axis] as int));
}

/// The runs that a product is scheduled as, where it can be scheduled, compute
/// every matrix of its output, one each. A run's output is exactly one element
/// of each leading axis, and each of its operands is that element too, or the
/// only one of a dimension that is broadcast. So the outputs are disjoint and
/// together cover the whole output.
pub proof fn lemma_products_are_scheduled_by_matrix(shards: Seq<ShardModel>, run: RunModel)
    requires
        lies_within(shards, run.output),
        is_batched(shards, run) ==> matrix_runs_below(
            shards,
            run,
            (run.output.extents.len() - 2) as nat,
            Seq::empty(),
            Seq::empty(),
        ) is Ok,
    ensures
        stand_for(shards, scheduled_runs(shards, run), run),
{
    if is_batched(shards, run) {
        let axes = (run.output.extents.len() - 2) as nat;
        let first = Seq::<u32>::empty();
        let all = lemma_runs_below(shards, run, axes, first, Seq::empty());
        let runs = matrix_runs_below(shards, run, axes, first, Seq::empty())->Ok_0;
        assert(names_all_matrices(run.output, all)) by {
            assert forall|at: Seq<u32>| #[trigger]
                names_matrix(run.output, at) implies all.contains(at) by {
                assert(starts_with(at, first));
            }
        }
        assert forall|j: int| 0 <= j < runs.len() implies is_matrix_run(
            shards,
            #[trigger] runs[j],
            run,
            all[j],
        ) by {
            assert(is_matrix_run(shards, runs[0 + j], run, all[j]));
        }
        assert forall|j: int, k: int| 0 <= j < k < runs.len() implies are_disjoint(
            (#[trigger] runs[j]).output,
            (#[trigger] runs[k]).output,
        ) by {
            lemma_matrices_are_disjoint(shards, runs, run, all, j, k);
        }
        assert(are_matrix_runs(shards, runs, run, all));
        if all.len() <= 1 {
            assert(scheduled_runs(shards, run) == seq![run]);
        }
    }
}

/// The runs that scheduling adds to a schedule, all of them on the tile, stand
/// for the run: for a batched product they are its matrices.
pub proof fn lemma_scheduling_makes_every_matrix(s: StateModel, tile: u16, run: RunModel)
    requires
        lies_within(s.shards, run.output),
    ensures
        match append_kernel(s, tile, run) {
            Ok(t) => {
                let from = s.kernel_runs.len() as int;
                &&& s.kernel_runs.is_prefix_of(t.kernel_runs)
                &&& stand_for(s.shards, t.kernel_runs.skip(from), run)
                &&& forall|j: int|
                    from <= j < t.kernel_runs.len() ==> schedules(
                        t,
                        tile,
                        TileWork::Kernel(KernelRunId(#[trigger] (j as u32))),
                    )
            },
            Err(_) => true,
        },
{
    if let Ok(t) = append_kernel(s, tile, run) {
        let from = s.kernel_runs.len() as int;
        let runs = scheduled_runs(s.shards, run);
        lemma_products_are_scheduled_by_matrix(s.shards, run);
        lemma_append_run(s, tile, run);
        lemma_run_count(s, tile, run);
        assert(makes_at(t, s.shards, run, tile, from));
        assert(runs_at(t, runs, tile, from));
        assert forall|j: int| 0 <= j < runs.len() implies #[trigger] runs[j] == t.kernel_runs[from
            + j] by {}
        assert(t.kernel_runs.skip(from) =~= runs);
        assert(s.kernel_runs =~= t.kernel_runs.take(from));
        assert forall|j: int| from <= j < t.kernel_runs.len() implies schedules(
            t,
            tile,
            TileWork::Kernel(KernelRunId(#[trigger] (j as u32))),
        ) by {
            let i = j - from;
            assert(schedules(t, tile, TileWork::Kernel(KernelRunId((from + i) as u32))));
        }
    }
}

proof fn lemma_single_count(s: StateModel, tile: u16, runs: Seq<RunModel>, i: int)
    requires
        0 <= i <= runs.len(),
    ensures
        match append_single_kernels_from(s, tile, runs, i) {
            Ok(t) => t.kernel_runs.len() == s.kernel_runs.len() + runs.len() - i,
            Err(_) => true,
        },
    decreases runs.len() - i,
{
    if i < runs.len() {
        if let Ok(next) = append_single_kernel(s, tile, runs[i]) {
            lemma_single_count(next, tile, runs, i + 1);
        }
    }
}

pub(crate) proof fn lemma_run_count(s: StateModel, tile: u16, run: RunModel)
    ensures
        match append_kernel(s, tile, run) {
            Ok(t) => t.kernel_runs.len() == s.kernel_runs.len() + scheduled_runs(
                s.shards,
                run,
            ).len(),
            Err(_) => true,
        },
{
    lemma_single_count(s, tile, scheduled_runs(s.shards, run), 0);
}

} // verus!
