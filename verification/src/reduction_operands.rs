//! What a product with a divided inner axis computes with: every shard of one
//! operand, the columns that its replicas share out, and the other operand.

use crate::gemm::GemmKernels;
use crate::low::{LowLoweringError, LowShardId, ShardModel};
use crate::mid::{
    GemmOrientation, LocalOperandStaging, MidOperation, MidValueId, OperandMaterialization,
    OperatorRequirementsModel,
};
use crate::partial_coverage::{adds_left, lemma_every_left_shard_contributes};
use crate::reduction_partials::{add_partitions_from, no_partials, PartialModel};
use crate::reduction_plan::{
    all_known, column_partitions, panel_block, partial_type, partition_columns, partitions_from,
    product_axes, replica_columns, replica_columns_from, replicas_from, same_footprint, Columns,
    ProductAxes, ReductionPlan,
};
use crate::reduction_sum::{
    append_partials, append_sums, kernel_requirements, lower_parallel_reduction_gemm,
    reduce_planned, Division,
};
use crate::state::StateModel;
use crate::target::{ResolvedModel, Target};
use crate::tensor::{AxisTiling, ShardExtent, TypeModel};
use vstd::prelude::*;

verus! {

/// The shard comes before the other: on a lower tile, or earlier on the same.
pub open spec fn precedes(shards: Seq<ShardModel>, ids: Seq<LowShardId>, i: int, j: int) -> bool {
    let this = shards[ids[i].0 as int].tile;
    let other = shards[ids[j].0 as int].tile;
    this < other || (this == other && i < j)
}

/// What has the footprint of one of two equal footprints has that of the other.
proof fn lemma_footprints(a: Seq<ShardExtent>, b: Seq<ShardExtent>, c: Seq<ShardExtent>)
    ensures
        same_footprint(a, a),
        same_footprint(a, b) ==> same_footprint(b, a),
        same_footprint(a, b) ==> (same_footprint(a, c) <==> same_footprint(b, c)),
{
    if same_footprint(a, b) {
        assert forall|i: int| 0 <= i < b.len() implies (#[trigger] b[i]).start == a[i].start
            && b[i].physical_end == a[i].physical_end by {
            assert(a[i].start == b[i].start);
        }
        if same_footprint(a, c) {
            assert forall|i: int| 0 <= i < b.len() implies (#[trigger] b[i]).start == c[i].start
                && b[i].physical_end == c[i].physical_end by {
                assert(a[i].start == c[i].start);
            }
        }
        if same_footprint(b, c) {
            assert forall|i: int| 0 <= i < a.len() implies (#[trigger] a[i]).start == c[i].start
                && a[i].physical_end == c[i].physical_end by {
                assert(b[i].start == c[i].start);
            }
        }
    }
}

proof fn lemma_replica_order(
    shards: Seq<ShardModel>,
    ids: Seq<LowShardId>,
    i: int,
    j: int,
    k: int,
)
    requires
        0 <= i < ids.len(),
        0 <= j < ids.len(),
        0 <= k <= ids.len(),
        same_footprint(shards[ids[i].0 as int].extents, shards[ids[j].0 as int].extents),
        precedes(shards, ids, i, j),
    ensures
        replicas_from(shards, ids, i, k).0 == replicas_from(shards, ids, j, k).0,
        replicas_from(shards, ids, i, k).1 + (if k <= i {
            1int
        } else {
            0
        }) <= replicas_from(shards, ids, j, k).1,
    decreases ids.len() - k,
{
    if k < ids.len() {
        lemma_replica_order(shards, ids, i, j, k + 1);
        let a = shards[ids[i].0 as int].extents;
        let b = shards[ids[j].0 as int].extents;
        let c = shards[ids[k].0 as int].extents;
        lemma_footprints(a, b, c);
    }
}

proof fn lemma_own_replica(shards: Seq<ShardModel>, ids: Seq<LowShardId>, i: int, k: int)
    requires
        0 <= i < ids.len(),
        0 <= k <= ids.len(),
    ensures
        0 <= replicas_from(shards, ids, i, k).1,
        replicas_from(shards, ids, i, k).1 + (if k <= i {
            1int
        } else {
            0
        }) <= replicas_from(shards, ids, i, k).0,
    decreases ids.len() - k,
{
    if k < ids.len() {
        lemma_own_replica(shards, ids, i, k + 1);
        let a = shards[ids[i].0 as int].extents;
        lemma_footprints(a, a, a);
    }
}

/// Each column number is in range, and is that of the replica's rank.
spec fn ranks_stand(
    shards: Seq<ShardModel>,
    ids: Seq<LowShardId>,
    partitions: u16,
    ranks: Seq<u32>,
) -> bool {
    forall|k: int|
        0 <= k < ranks.len() ==> (#[trigger] ranks[k]) == replicas_from(shards, ids, k, 0).1
            && ranks[k] < partitions
}

proof fn lemma_ranks(
    shards: Seq<ShardModel>,
    ids: Seq<LowShardId>,
    partitions: u16,
    i: int,
    done: Seq<u32>,
)
    requires
        0 <= i <= ids.len(),
        done.len() == i,
        ranks_stand(shards, ids, partitions, done),
    ensures
        match replica_columns_from(shards, ids, partitions, i, done) {
            Ok(ranks) => ranks.len() == ids.len() && ranks_stand(shards, ids, partitions, ranks),
            Err(_) => true,
        },
    decreases ids.len() - i,
{
    if i < ids.len() {
        let (count, before) = replicas_from(shards, ids, i, 0);
        lemma_own_replica(shards, ids, i, 0);
        if count == partitions {
            lemma_ranks(shards, ids, partitions, i + 1, done.push(before as u32));
        }
    }
}

/// Replicas of one rectangle take different columns, and all columns that there
/// are: each takes one of as many as there are replicas.
pub proof fn lemma_replicas_share_out_the_columns(
    shards: Seq<ShardModel>,
    ids: Seq<LowShardId>,
    partitions: u16,
)
    ensures
        match replica_columns(shards, ids, partitions) {
            Ok(columns) => {
                &&& columns.len() == ids.len()
                &&& forall|i: int| 0 <= i < ids.len() ==> (#[trigger] columns[i]) < partitions
                &&& forall|i: int, j: int|
                    0 <= i < ids.len() && 0 <= j < ids.len() && i != j && same_footprint(
                        shards[ids[i].0 as int].extents,
                        shards[ids[j].0 as int].extents,
                    ) ==> (#[trigger] columns[i]) != (#[trigger] columns[j])
            },
            Err(_) => true,
        },
{
    lemma_ranks(shards, ids, partitions, 0, Seq::empty());
    if let Ok(columns) = replica_columns(shards, ids, partitions) {
        assert forall|i: int, j: int|
            0 <= i < ids.len() && 0 <= j < ids.len() && i != j && same_footprint(
                shards[ids[i].0 as int].extents,
                shards[ids[j].0 as int].extents,
            ) implies (#[trigger] columns[i]) != (#[trigger] columns[j]) by {
            let a = shards[ids[i].0 as int].extents;
            let b = shards[ids[j].0 as int].extents;
            lemma_footprints(a, b, a);
            if precedes(shards, ids, i, j) {
                lemma_replica_order(shards, ids, i, j, 0);
            } else {
                lemma_replica_order(shards, ids, j, i, 0);
            }
        }
    }
}

/// What a divided product consists of.
pub struct Reduction {
    pub plan: ReductionPlan,
    pub kernels: GemmKernels,
    /// The type of the partial results.
    pub partial: TypeModel,
    /// The ranges of columns, and which of them each shard computes.
    pub columns: Seq<Columns>,
    pub taken: Seq<u32>,
    /// The work of the partial results, and the schedule before and after it.
    pub work: PartialModel,
    pub before: StateModel,
    pub after: StateModel,
}

/// A product is computed from its operands: every shard of the operand that
/// stays is multiplied, on its own tile, with the other operand, for the columns
/// that it takes; the partial results are scheduled, and summed into the result.
pub open spec fn reduces<M: Target>(
    target: &M,
    s: StateModel,
    t: StateModel,
    operation: MidOperation,
    kernels: GemmKernels,
    division: Division,
    left: MidValueId,
    right: MidValueId,
    r: Reduction,
) -> bool {
    let result = operation.results@[0];
    let lefts = s.canonical[left.0 as int];
    &&& left.0 < s.canonical.len()
    &&& right.0 < s.canonical.len()
    &&& result.0 < s.canonical.len()
    &&& r.plan.left == left
    &&& r.plan.right == right
    &&& r.plan.output == result
    &&& r.plan.inner_block == division.inner_block
    &&& r.plan.column_block == division.column_block
    &&& r.plan.orientation == division.orientation
    &&& r.plan.inner_partitions == division.partitions.inner
    &&& r.kernels.initialize == kernels.initialize
    &&& r.kernels.accumulate == kernels.accumulate
    &&& r.columns.len() == division.partitions.columns
    &&& r.taken.len() == lefts.len()
    &&& forall|l: int|
        0 <= l < lefts.len() ==> (#[trigger] lefts[l]).0 < s.shards.len() && r.taken[l]
            < r.columns.len() && adds_left(
            target,
            r.plan,
            r.kernels,
            s.canonical[right.0 as int],
            r.partial,
            s.shards[lefts[l].0 as int],
            r.columns[r.taken[l] as int],
            r.work,
        )
    &&& append_partials(r.before, r.plan, r.work) == Ok::<StateModel, LowLoweringError>(r.after)
    &&& append_sums(
        target,
        r.after,
        r.plan,
        kernels.requirements,
        r.work.partials,
        s.canonical[result.0 as int],
    ) == Ok::<StateModel, LowLoweringError>(t)
}

proof fn lemma_partition_count(
    resolved: ResolvedModel,
    axis: int,
    tiling: AxisTiling,
    partitions: u16,
    physical: u32,
    logical: u32,
    p: int,
    done: Seq<Columns>,
)
    requires
        0 <= p <= partitions,
        done.len() == p,
    ensures
        match partitions_from(resolved, axis, tiling, partitions, physical, logical, p, done) {
            Ok(columns) => columns.len() == partitions,
            Err(_) => true,
        },
    decreases partitions - p,
{
    if p < partitions {
        if let Ok(columns) = partition_columns(
            resolved,
            axis,
            tiling,
            partitions,
            physical,
            logical,
            p,
        ) {
            lemma_partition_count(
                resolved,
                axis,
                tiling,
                partitions,
                physical,
                logical,
                p + 1,
                done.push(columns),
            );
        }
    }
}

proof fn lemma_column_count<M: Target>(
    target: &M,
    output: TypeModel,
    axes: ProductAxes,
    partitions: u16,
)
    ensures
        match column_partitions(target, output, axes, partitions) {
            Ok((_, columns)) => columns.len() == partitions,
            Err(_) => true,
        },
{
    if let Ok((tiling, columns)) = column_partitions(target, output, axes, partitions) {
        let resolved = target.spec_resolve(output.format.layout, output.shape)->Ok_0;
        lemma_partition_count(
            resolved,
            axes.output_column as int,
            tiling,
            partitions,
            resolved.padded_shape[axes.output_column as int],
            output.shape[axes.output_column as int],
            0,
            Seq::empty(),
        );
    }
}

proof fn lemma_reduces<M: Target>(
    target: &M,
    s: StateModel,
    t: StateModel,
    operation: MidOperation,
    kernels: GemmKernels,
    required: OperatorRequirementsModel,
    division: Division,
    plan: ReductionPlan,
    output: TypeModel,
    left: MidValueId,
    right: MidValueId,
)
    requires
        left.0 < s.canonical.len(),
        right.0 < s.canonical.len(),
        operation.results@[0].0 < s.canonical.len(),
        plan.left == left,
        plan.right == right,
        plan.output == operation.results@[0],
        plan.inner_block == division.inner_block,
        plan.inner_block > 0,
        plan.column_block == division.column_block,
        plan.orientation == division.orientation,
        plan.inner_partitions == division.partitions.inner,
        reduce_planned(
            target,
            s,
            plan,
            (GemmKernels { requirements: required, ..kernels }),
            kernels.requirements,
            division,
            output,
            s.canonical[left.0 as int],
            s.canonical[right.0 as int],
            s.canonical[operation.results@[0].0 as int],
        ) == Ok::<StateModel, LowLoweringError>(t),
    ensures
        exists|r: Reduction| #[trigger]
            reduces(target, s, t, operation, kernels, division, left, right, r),
{
    let lefts = s.canonical[left.0 as int];
    let rights = s.canonical[right.0 as int];
    let outputs = s.canonical[operation.results@[0].0 as int];
    let with = GemmKernels { requirements: required, ..kernels };
    let count = division.partitions.columns;
    lemma_column_count(target, output, plan.axes, count);
    lemma_replicas_share_out_the_columns(s.shards, lefts, count);
    let (tiling, columns) = column_partitions(target, output, plan.axes, count)->Ok_0;
    let taken = replica_columns(s.shards, lefts, count)->Ok_0;
    let partial = partial_type(
        target,
        output,
        division.orientation,
        division.column_block,
        division.partitions,
        plan.axes,
        tiling,
    );
    let (before, work) = add_partitions_from(
        target,
        s,
        plan,
        with,
        lefts,
        taken,
        rights,
        outputs,
        partial,
        columns,
        0,
        no_partials(),
    )->Ok_0;
    let after = append_partials(before, plan, work)->Ok_0;
    let r = Reduction { plan, kernels: with, partial, columns, taken, work, before, after };
    assert forall|l: int| 0 <= l < lefts.len() implies (#[trigger] lefts[l]).0 < s.shards.len()
        && r.taken[l] < r.columns.len() && adds_left(
        target,
        r.plan,
        r.kernels,
        rights,
        r.partial,
        s.shards[lefts[l].0 as int],
        r.columns[r.taken[l] as int],
        r.work,
    ) by {
        assert(all_known(s.shards, lefts));
        assert(lefts[l].0 < s.shards.len());
        assert(taken[l] < count);
        lemma_every_left_shard_contributes(
            target,
            s,
            plan,
            with,
            lefts,
            taken,
            rights,
            outputs,
            partial,
            columns,
            l,
        );
    }
    assert(reduces(target, s, t, operation, kernels, division, left, right, r));
}

/// The operand whose shards stay on their tiles.
pub open spec fn staying_operand(operation: MidOperation, orientation: GemmOrientation) -> MidValueId {
    if orientation == GemmOrientation::Normal {
        operation.inputs@[0]
    } else {
        operation.inputs@[1]
    }
}

/// The operand that is brought to the other.
pub open spec fn brought_operand(operation: MidOperation, orientation: GemmOrientation) -> MidValueId {
    if orientation == GemmOrientation::Normal {
        operation.inputs@[1]
    } else {
        operation.inputs@[0]
    }
}

/// A product with a divided inner axis is computed from the operation's inputs.
/// The first is the operand that stays; with exchanged operands it is the second.
pub proof fn lemma_divided_products_compute_with_their_operands<M: Target>(
    target: &M,
    s: StateModel,
    operation: MidOperation,
    kernels: GemmKernels,
    division: Division,
)
    ensures
        match lower_parallel_reduction_gemm(target, s, operation, kernels, division) {
            Ok(t) => {
                &&& operation.inputs@.len() == 2
                &&& operation.results@.len() == 1
                &&& exists|r: Reduction| #[trigger]
                    reduces(
                        target,
                        s,
                        t,
                        operation,
                        kernels,
                        division,
                        staying_operand(operation, division.orientation),
                        brought_operand(operation, division.orientation),
                        r,
                    )
            },
            Err(_) => true,
        },
{
    if let Ok(t) = lower_parallel_reduction_gemm(target, s, operation, kernels, division) {
        let left = staying_operand(operation, division.orientation);
        let right = brought_operand(operation, division.orientation);
        let required = kernel_requirements(division.orientation, kernels.requirements);
        let first_left = s.shards[s.canonical[left.0 as int][0].0 as int];
        let first_right = s.shards[s.canonical[right.0 as int][0].0 as int];
        let first_output = s.shards[s.canonical[operation.results@[0].0 as int][0].0 as int];
        let plan = ReductionPlan {
            source: operation.source,
            left,
            right,
            output: operation.results@[0],
            orientation: division.orientation,
            axes: product_axes(
                division.orientation,
                first_left.extents.len(),
                first_right.extents.len(),
                first_output.extents.len(),
            ),
            inner_block: division.inner_block,
            column_block: division.column_block,
            panel_block: panel_block(required.inputs[1].format.layout.order),
            slices: required.inputs[0].materialization == OperandMaterialization::DispatchSlices,
            stage_local: required.inputs[1].local_staging == LocalOperandStaging::MatchRemote,
            inner_partitions: division.partitions.inner,
            staging: division.staging,
        };
        lemma_reduces(
            target,
            s,
            t,
            operation,
            kernels,
            required,
            division,
            plan,
            first_output.tensor_type,
            left,
            right,
        );
    }
}

} // verus!
