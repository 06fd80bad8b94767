//! Matrix products on resident blocks: contraction and column blocks, batch
//! matrices, and the arithmetic that each call does.

use crate::blocks::{
    append_block_run, block_of, built, narrow_block_view, narrowed_view, obtained, whole_block,
    BlockKernel, BlockKernelModel, BlockRun, BlockRunModel, BlockStep, BlockTarget, BuilderModel,
    ExpansionError, ExpansionResult, TileGraphBuilder,
};
use crate::extents::min;
use crate::kernels::{matrix_extents, narrow_gemm_matrix_view};
use crate::low::{LowShardId, ShardModel, ShardView, ViewModel, WorkProvenance};
use crate::mid::{
    AccumulationPrecision, GemmMode, GemmWeightLoad, KernelModel, KernelSpec, TileKernelSpec,
};
use crate::model::{Model, copy_all, deep, group_deep};
use crate::tensor::{
    AmpOrder, ElementOrder, LayoutError, MemoryClass, Precision, ShardExtent, TensorAxis,
};
use vstd::prelude::*;

verus! {

/// The axes of a product, and how much of them is useful.
#[derive(Clone, Copy, Debug, PartialEq, Eq, Structural)]
pub struct ContractionAxes {
    pub left_inner: TensorAxis,
    pub right_inner: TensorAxis,
    pub output_column: TensorAxis,
    /// Useful inner elements, where not all are.
    pub valid_inner: Option<u32>,
    /// Useful columns, where not all are.
    pub valid_columns: Option<u32>,
}

/// A product of resident blocks.
#[derive(Clone, Copy, Debug)]
pub struct Product {
    pub multiply: Precision,
    pub accumulate: AccumulationPrecision,
    pub mode: GemmMode,
    pub inner_block: u32,
    pub output_columns: u32,
    pub axes: ContractionAxes,
}

// ---------------------------------------------------------------- matrices

/// The two inputs and the output of one product.
pub type Matrices = (ViewModel, ViewModel, ViewModel);

/// One view restricted to one matrix of a batch.
pub open spec fn block_matrix(
    shards: Seq<ShardModel>,
    view: ViewModel,
    output_shape: Seq<u32>,
    coordinates: Seq<u32>,
) -> Result<ViewModel, ExpansionError> {
    match block_of(shards, view.shard) {
        Err(e) => Err(e),
        Ok(block) => match matrix_extents(
            view.extents,
            block.tensor_type.shape,
            output_shape,
            coordinates,
        ) {
            Err(_) => Err(ExpansionError::InvalidOperatorPlan),
            Ok(extents) => Ok(ViewModel { shard: view.shard, extents }),
        },
    }
}

/// The operands of one matrix of a batch.
pub open spec fn matrices_at(
    shards: Seq<ShardModel>,
    batch: Matrices,
    coordinates: Seq<u32>,
) -> Result<Matrices, ExpansionError> {
    match block_of(shards, batch.2.shard) {
        Err(e) => Err(e),
        Ok(block) => {
            let shape = block.tensor_type.shape;
            match block_matrix(shards, batch.2, shape, coordinates) {
                Err(e) => Err(e),
                Ok(output) => match block_matrix(shards, batch.0, shape, coordinates) {
                    Err(e) => Err(e),
                    Ok(left) => match block_matrix(shards, batch.1, shape, coordinates) {
                        Err(e) => Err(e),
                        Ok(right) => Ok((left, right, output)),
                    },
                },
            }
        },
    }
}

/// `done` followed by the matrices whose first coordinates are `coordinates`, in
/// lexicographic order. A batch has no padding.
pub open spec fn matrices_below(
    shards: Seq<ShardModel>,
    batch: Matrices,
    axes: nat,
    coordinates: Seq<u32>,
    done: Seq<Matrices>,
) -> Result<Seq<Matrices>, ExpansionError>
    decreases axes - coordinates.len(), 1int, 0int,
{
    if coordinates.len() >= axes {
        match matrices_at(shards, batch, coordinates) {
            Err(e) => Err(e),
            Ok(matrices) => Ok(done.push(matrices)),
        }
    } else {
        let extent = batch.2.extents[coordinates.len() as int];
        if extent.logical_end != extent.physical_end {
            Err(ExpansionError::InvalidOperatorPlan)
        } else {
            matrices_along(
                shards,
                batch,
                axes,
                coordinates,
                extent.start as int,
                extent.physical_end as int,
                done,
            )
        }
    }
}

/// `done` followed by the matrices whose next coordinate is in
/// `coordinate..end`.
pub open spec fn matrices_along(
    shards: Seq<ShardModel>,
    batch: Matrices,
    axes: nat,
    coordinates: Seq<u32>,
    coordinate: int,
    end: int,
    done: Seq<Matrices>,
) -> Result<Seq<Matrices>, ExpansionError>
    decreases axes - coordinates.len(), 0int, end - coordinate,
{
    if coordinate >= end || coordinates.len() >= axes {
        Ok(done)
    } else {
        match matrices_below(shards, batch, axes, coordinates.push(coordinate as u32), done) {
            Err(e) => Err(e),
            Ok(more) => matrices_along(
                shards,
                batch,
                axes,
                coordinates,
                coordinate + 1,
                end,
                more,
            ),
        }
    }
}

/// The storage of the output joins the rows of all matrices.
pub open spec fn joins_rows(order: ElementOrder) -> bool {
    order == ElementOrder::Amp(AmpOrder::Left) || order == ElementOrder::Amp(AmpOrder::Output)
}

/// The matrices that are multiplied by calls of their own.
pub open spec fn separate_matrices(shards: Seq<ShardModel>, batch: Matrices) -> Result<
    Seq<Matrices>,
    ExpansionError,
> {
    match block_of(shards, batch.2.shard) {
        Err(e) => Err(e),
        Ok(block) => if batch.2.extents.len() > 2 && !joins_rows(
            block.tensor_type.format.layout.order,
        ) {
            matrices_below(
                shards,
                batch,
                (batch.2.extents.len() - 2) as nat,
                Seq::empty(),
                Seq::empty(),
            )
        } else {
            Ok(seq![batch])
        },
    }
}

// ---------------------------------------------------------------- arithmetic

/// Useful elements of a range, up to a bound.
pub open spec fn useful(extent: ShardExtent, limit: Option<u32>) -> int {
    let end = match limit {
        Some(limit) => min(extent.logical_end, limit),
        None => extent.logical_end,
    };
    if end > extent.start {
        end - extent.start
    } else {
        0
    }
}

/// `acc` times the useful elements of the axes from `i` on, without `skip`.
pub open spec fn useful_rows_from(extents: Seq<ShardExtent>, skip: int, i: int, acc: int) -> Result<
    int,
    ExpansionError,
>
    decreases extents.len() - i,
{
    if i >= extents.len() {
        Ok(acc)
    } else if i == skip {
        useful_rows_from(extents, skip, i + 1, acc)
    } else if acc * useful(extents[i], None) > u64::MAX {
        Err(ExpansionError::IdOverflow)
    } else {
        useful_rows_from(extents, skip, i + 1, acc * useful(extents[i], None))
    }
}

/// `acc` times the widths of the axes from `i` on, padding included.
pub open spec fn padded_elements_from(extents: Seq<ShardExtent>, i: int, acc: int) -> Result<
    int,
    ExpansionError,
>
    decreases extents.len() - i,
{
    if i >= extents.len() {
        Ok(acc)
    } else if extents[i].physical_end < extents[i].start || acc * (extents[i].physical_end
        - extents[i].start) > u64::MAX {
        Err(ExpansionError::IdOverflow)
    } else {
        padded_elements_from(
            extents,
            i + 1,
            acc * (extents[i].physical_end - extents[i].start),
        )
    }
}

/// The lesser of two numbers.
pub open spec fn lesser(a: int, b: int) -> int {
    if a <= b {
        a
    } else {
        b
    }
}

/// Useful and actual arithmetic of one product: two operations for each element
/// of the output and of the inner axis.
pub open spec fn product_flops(
    axes: ContractionAxes,
    positions: Positions,
    matrices: Matrices,
    width: int,
) -> Result<(u64, u64), ExpansionError> {
    let output = matrices.2.extents;
    match useful_rows_from(output, positions.output_column, 0, 1) {
        Err(e) => Err(e),
        Ok(rows) => {
            let columns = lesser(
                useful(output[positions.output_column], axes.valid_columns),
                useful(matrices.1.extents[positions.right_column], axes.valid_columns),
            );
            let inner = lesser(
                useful(matrices.0.extents[positions.left_inner], axes.valid_inner),
                useful(matrices.1.extents[positions.right_inner], axes.valid_inner),
            );
            match padded_elements_from(output, 0, 1) {
                Err(e) => Err(e),
                Ok(elements) => if 2 * rows * columns * inner > u64::MAX || 2 * elements * width
                    > u64::MAX {
                    Err(ExpansionError::IdOverflow)
                } else {
                    Ok(((2 * rows * columns * inner) as u64, (2 * elements * width) as u64))
                },
            }
        },
    }
}

// ---------------------------------------------------------------- calls

/// The axes of a product, as positions.
pub struct Positions {
    pub left_row: int,
    pub left_inner: int,
    pub right_inner: int,
    pub right_column: int,
    pub output_row: int,
    pub output_column: int,
}

/// The other matrix axis.
pub open spec fn partner(axis: int, rank: nat) -> int {
    if axis == rank - 1 {
        axis - 1
    } else {
        axis + 1
    }
}

/// The axes of a product for the given ranks.
pub open spec fn product_positions(
    axes: ContractionAxes,
    left: nat,
    right: nat,
    output: nat,
) -> Result<Positions, ExpansionError> {
    match (
        axes.left_inner.spec_resolve(left),
        axes.right_inner.spec_resolve(right),
        axes.output_column.spec_resolve(output),
    ) {
        (Some(left_inner), Some(right_inner), Some(output_column)) => if left < 2 || right < 2
            || output < 2 {
            Err(ExpansionError::InvalidOperatorPlan)
        } else {
            Ok(
                Positions {
                    left_row: partner(left_inner, left),
                    left_inner,
                    right_inner,
                    right_column: partner(right_inner, right),
                    output_row: partner(output_column, output),
                    output_column,
                },
            )
        },
        _ => Err(ExpansionError::Layout(LayoutError::RankMismatch)),
    }
}

/// Two ranges begin and end together, padding included.
pub open spec fn same_bounds(a: ShardExtent, b: ShardExtent) -> bool {
    a.start == b.start && a.physical_end == b.physical_end
}

/// Rows, columns and inner elements of the operands fit together.
pub open spec fn operands_fit(
    left: Seq<ShardExtent>,
    right: Seq<ShardExtent>,
    output: Seq<ShardExtent>,
    p: Positions,
) -> bool {
    &&& same_bounds(left[p.left_row], output[p.output_row])
    &&& same_bounds(right[p.right_column], output[p.output_column])
    &&& left[p.left_inner].start <= left[p.left_inner].physical_end
    &&& left[p.left_inner].physical_end - left[p.left_inner].start
        == right[p.right_inner].physical_end - right[p.right_inner].start
}

/// The kernel of one call.
pub open spec fn call_kernel(
    product: Product,
    memory_class: MemoryClass,
    first: bool,
    width: int,
    columns: int,
) -> KernelModel {
    KernelSpec::Gemm {
        multiply: product.multiply,
        accumulate: product.accumulate,
        mode: if first {
            product.mode
        } else {
            GemmMode::Accumulate
        },
        weights: if memory_class == MemoryClass::Ipu21Interleaved {
            GemmWeightLoad::Interleaved
        } else {
            GemmWeightLoad::Standard
        },
        inner_block: width as u32,
        output_columns: columns as u32,
    }
}

/// Adds the calls for the matrices from `i` on.
pub open spec fn append_calls_from(
    s: BuilderModel,
    provenance: WorkProvenance,
    tile: u16,
    kernel: KernelModel,
    axes: ContractionAxes,
    positions: Positions,
    matrices: Seq<Matrices>,
    width: int,
    i: int,
) -> BlockStep
    decreases matrices.len() - i,
{
    if i >= matrices.len() {
        Ok(s)
    } else {
        match product_flops(axes, positions, matrices[i], width) {
            Err(e) => Err(e),
            Ok(flops) => match append_block_run(
                s,
                tile,
                BlockRunModel {
                    provenance,
                    kernel: BlockKernelModel::Tile(kernel),
                    inputs: seq![matrices[i].0, matrices[i].1],
                    outputs: seq![matrices[i].2],
                    product_flops: Some(flops),
                },
            ) {
                Err(e) => Err(e),
                Ok(next) => append_calls_from(
                    next,
                    provenance,
                    tile,
                    kernel,
                    axes,
                    positions,
                    matrices,
                    width,
                    i + 1,
                ),
            },
        }
    }
}

/// A product on one tile.
pub struct ProductCall {
    pub provenance: WorkProvenance,
    pub tile: u16,
    pub left: ViewModel,
    pub right: ViewModel,
    pub output: LowShardId,
    pub product: Product,
    pub positions: Positions,
    /// How the weights are stored.
    pub memory_class: MemoryClass,
}

/// Part of a whole block.
pub open spec fn narrowed_block(
    shards: Seq<ShardModel>,
    id: LowShardId,
    ranges: Seq<(usize, u32, u32)>,
) -> Result<ViewModel, ExpansionError> {
    match whole_block(shards, id) {
        Err(e) => Err(e),
        Ok(view) => narrowed_view(view, ranges),
    }
}

/// Adds the calls for one block of columns and of inner elements.
pub open spec fn append_product_block(
    s: BuilderModel,
    c: ProductCall,
    columns: (u32, u32),
    k: int,
    width: int,
) -> BlockStep {
    let p = c.positions;
    let left_start = c.left.extents[p.left_inner].start + k;
    let right_start = c.right.extents[p.right_inner].start + k;
    match narrowed_block(
        s.shards,
        c.left.shard,
        seq![(p.left_inner as usize, left_start as u32, (left_start + width) as u32)],
    ) {
        Err(e) => Err(e),
        Ok(l) => match narrowed_block(
            s.shards,
            c.right.shard,
            seq![
                (p.right_inner as usize, right_start as u32, (right_start + width) as u32),
                (p.right_column as usize, columns.0, columns.1),
            ],
        ) {
            Err(e) => Err(e),
            Ok(r) => match narrowed_block(
                s.shards,
                c.output,
                seq![(p.output_column as usize, columns.0, columns.1)],
            ) {
                Err(e) => Err(e),
                Ok(output) => match separate_matrices(s.shards, (l, r, output)) {
                    Err(e) => Err(e),
                    Ok(matrices) => append_calls_from(
                        s,
                        c.provenance,
                        c.tile,
                        call_kernel(
                            c.product,
                            c.memory_class,
                            k == 0,
                            width,
                            columns.1 - columns.0,
                        ),
                        c.product.axes,
                        p,
                        matrices,
                        width,
                        0,
                    ),
                },
            },
        },
    }
}

/// Adds the calls for the inner elements from `k` on.
pub open spec fn append_inner_from(
    s: BuilderModel,
    c: ProductCall,
    columns: (u32, u32),
    inner: int,
    k: int,
) -> BlockStep
    decreases inner - k,
{
    if k >= inner || c.product.inner_block == 0 {
        Ok(s)
    } else {
        let width = lesser(inner - k, c.product.inner_block as int);
        match append_product_block(s, c, columns, k, width) {
            Err(e) => Err(e),
            Ok(next) => append_inner_from(next, c, columns, inner, k + width),
        }
    }
}

/// Adds the calls for the columns from `column` on.
pub open spec fn append_columns_from(
    s: BuilderModel,
    c: ProductCall,
    inner: int,
    step: int,
    column: int,
    end: int,
) -> BlockStep
    decreases end - column,
{
    if column >= end || step <= 0 {
        Ok(s)
    } else {
        let next_column = lesser(column + step, end);
        match append_inner_from(s, c, (column as u32, next_column as u32), inner, 0) {
            Err(e) => Err(e),
            Ok(next) => append_columns_from(next, c, inner, step, next_column, end),
        }
    }
}

/// Multiplies two resident views into a block, block by block.
pub open spec fn product_calls<M: BlockTarget>(
    target: &M,
    s: BuilderModel,
    provenance: WorkProvenance,
    tile: u16,
    inputs: Seq<ViewModel>,
    output: LowShardId,
    product: Product,
) -> BlockStep {
    if inputs.len() != 2 {
        Err(ExpansionError::InvalidOperatorPlan)
    } else {
        match block_of(s.shards, output) {
            Err(e) => Err(e),
            Ok(block) => match block_of(s.shards, inputs[1].shard) {
                Err(e) => Err(e),
                Ok(weights) => match product_positions(
                    product.axes,
                    inputs[0].extents.len(),
                    inputs[1].extents.len(),
                    block.extents.len(),
                ) {
                    Err(e) => Err(e),
                    Ok(positions) => if !operands_fit(
                        inputs[0].extents,
                        inputs[1].extents,
                        block.extents,
                        positions,
                    ) || product.inner_block == 0 || product.output_columns == 0 {
                        Err(ExpansionError::InvalidOperatorPlan)
                    } else {
                        let columns = block.extents[positions.output_column];
                        let inner = inputs[0].extents[positions.left_inner];
                        append_columns_from(
                            s,
                            ProductCall {
                                provenance,
                                tile,
                                left: inputs[0],
                                right: inputs[1],
                                output,
                                product,
                                positions,
                                memory_class: weights.tensor_type.format.layout.memory_class,
                            },
                            inner.physical_end - inner.start,
                            match target.spec_output_group(block.tensor_type.format.layout.order) {
                                Some(group) => lesser(
                                    product.output_columns as int,
                                    group as int,
                                ),
                                None => product.output_columns as int,
                            },
                            columns.start as int,
                            columns.physical_end as int,
                        )
                    },
                },
            },
        }
    }
}

// ---------------------------------------------------------------- carrying out

/// The operands of one product, as they are handed on.
pub type MatrixViews = (ShardView, ShardView, ShardView);

/// A product on one tile, as it is handed on.
#[derive(Debug)]
pub struct Call<'a> {
    pub provenance: WorkProvenance,
    pub tile: u16,
    pub left: &'a ShardView,
    pub right: &'a ShardView,
    pub output: LowShardId,
    pub product: Product,
    pub left_inner: usize,
    pub right_inner: usize,
    pub right_column: usize,
    pub output_column: usize,
    pub left_row: usize,
    pub output_row: usize,
    pub memory_class: MemoryClass,
}

impl<'a> View for Call<'a> {
    type V = ProductCall;

    open spec fn view(&self) -> ProductCall {
        ProductCall {
            provenance: self.provenance,
            tile: self.tile,
            left: self.left@,
            right: self.right@,
            output: self.output,
            product: self.product,
            positions: Positions {
                left_row: self.left_row as int,
                left_inner: self.left_inner as int,
                right_inner: self.right_inner as int,
                right_column: self.right_column as int,
                output_row: self.output_row as int,
                output_column: self.output_column as int,
            },
            memory_class: self.memory_class,
        }
    }
}

fn count_useful(extent: ShardExtent, limit: Option<u32>) -> (r: u64)
    ensures
        r == useful(extent, limit),
        r <= u32::MAX,
{
    let end: u32 = match limit {
        Some(limit) => if extent.logical_end <= limit {
            extent.logical_end
        } else {
            limit
        },
        None => extent.logical_end,
    };
    if end > extent.start {
        (end - extent.start) as u64
    } else {
        0
    }
}

fn count_useful_rows(extents: &Vec<ShardExtent>, skip: usize) -> (r: ExpansionResult<u64>)
    ensures
        match r {
            Ok(rows) => useful_rows_from(extents@, skip as int, 0, 1) == Ok::<
                int,
                ExpansionError,
            >(rows as int),
            Err(e) => useful_rows_from(extents@, skip as int, 0, 1) == Err::<int, ExpansionError>(
                e,
            ),
        },
{
    let mut total: u64 = 1;
    let mut i: usize = 0;
    while i < extents.len()
        invariant
            i <= extents@.len(),
            useful_rows_from(extents@, skip as int, 0, 1) == useful_rows_from(
                extents@,
                skip as int,
                i as int,
                total as int,
            ),
        decreases extents@.len() - i,
    {
        if i != skip {
            total = match total.checked_mul(count_useful(extents[i], None)) {
                Some(total) => total,
                None => {
                    return Err(ExpansionError::IdOverflow);
                },
            };
        }
        i += 1;
    }
    Ok(total)
}

fn count_padded(extents: &Vec<ShardExtent>) -> (r: ExpansionResult<u64>)
    ensures
        match r {
            Ok(elements) => padded_elements_from(extents@, 0, 1) == Ok::<int, ExpansionError>(
                elements as int,
            ),
            Err(e) => padded_elements_from(extents@, 0, 1) == Err::<int, ExpansionError>(e),
        },
{
    let mut total: u64 = 1;
    let mut i: usize = 0;
    while i < extents.len()
        invariant
            i <= extents@.len(),
            padded_elements_from(extents@, 0, 1) == padded_elements_from(
                extents@,
                i as int,
                total as int,
            ),
        decreases extents@.len() - i,
    {
        let extent: ShardExtent = extents[i];
        if extent.physical_end < extent.start {
            return Err(ExpansionError::IdOverflow);
        }
        total = match total.checked_mul((extent.physical_end - extent.start) as u64) {
            Some(total) => total,
            None => {
                return Err(ExpansionError::IdOverflow);
            },
        };
        i += 1;
    }
    Ok(total)
}

/// The product of three numbers times two, if it fits.
fn twice(a: u64, b: u64, c: u64) -> (r: Option<u64>)
    ensures
        match r {
            Some(n) => n == 2 * a * b * c,
            None => 2 * a * b * c > u64::MAX,
        },
{
    // A zero factor makes the product zero, whatever the others are.
    if a == 0 || b == 0 || c == 0 {
        assert(2 * a * b * c == 0) by (nonlinear_arith)
            requires
                a == 0 || b == 0 || c == 0,
        ;
        return Some(0);
    }
    let double: u64 = match a.checked_mul(2) {
        Some(double) => double,
        None => {
            assert(2 * a * b * c >= 2 * a) by (nonlinear_arith)
                requires
                    b >= 1,
                    c >= 1,
            ;
            return None;
        },
    };
    let middle: u64 = match double.checked_mul(b) {
        Some(middle) => middle,
        None => {
            assert(2 * a * b * c >= 2 * a * b) by (nonlinear_arith)
                requires
                    c >= 1,
            ;
            return None;
        },
    };
    middle.checked_mul(c)
}

fn count_flops(
    axes: ContractionAxes,
    call: &Call,
    matrices: &MatrixViews,
    width: u32,
) -> (r: ExpansionResult<(u64, u64)>)
    requires
        call.output_column < matrices.2.extents@.len(),
        call.right_column < matrices.1.extents@.len(),
        call.right_inner < matrices.1.extents@.len(),
        call.left_inner < matrices.0.extents@.len(),
    ensures
        r == product_flops(axes, call@.positions, matrices@, width as int),
{
    let output = &matrices.2.extents;
    let rows: u64 = count_useful_rows(output, call.output_column)?;
    let a: u64 = count_useful(output[call.output_column], axes.valid_columns);
    let b: u64 = count_useful(matrices.1.extents[call.right_column], axes.valid_columns);
    let columns: u64 = if a <= b {
        a
    } else {
        b
    };
    let a: u64 = count_useful(matrices.0.extents[call.left_inner], axes.valid_inner);
    let b: u64 = count_useful(matrices.1.extents[call.right_inner], axes.valid_inner);
    let inner: u64 = if a <= b {
        a
    } else {
        b
    };
    let elements: u64 = count_padded(output)?;
    let actual = twice(elements, width as u64, 1);
    assert(2 * elements * width * 1 == 2 * elements * width);
    match (twice(rows, columns, inner), actual) {
        (Some(useful), Some(actual)) => Ok((useful, actual)),
        _ => Err(ExpansionError::IdOverflow),
    }
}

/// The operands of all matrices have the axes of the call.
pub open spec fn all_ranked(matrices: Seq<Matrices>, batch: Matrices) -> bool {
    forall|i: int|
        0 <= i < matrices.len() ==> (#[trigger] matrices[i]).0.extents.len()
            == batch.0.extents.len() && matrices[i].1.extents.len() == batch.1.extents.len()
            && matrices[i].2.extents.len() == batch.2.extents.len()
}

impl TileGraphBuilder {
    fn block_matrix(&self, view: &ShardView, output_shape: &[u32], coordinates: &[u32]) -> (r:
        ExpansionResult<ShardView>)
        ensures
            obtained(r, block_matrix(self@.shards, view@, output_shape@, coordinates@)),
            r matches Ok(matrix) ==> matrix@.extents.len() == view@.extents.len(),
    {
        let block = self.block(view.shard)?;
        let mut matrix = view.duplicate();
        match narrow_gemm_matrix_view(
            &mut matrix,
            block.tensor_type.shape.0.as_slice(),
            output_shape,
            coordinates,
        ) {
            Ok(_) => Ok(matrix),
            Err(_) => Err(ExpansionError::InvalidOperatorPlan),
        }
    }

    fn split_gemm_matrices(
        &self,
        batch: &MatrixViews,
        axes: usize,
        coordinates: &mut Vec<u32>,
        matrices: &mut Vec<MatrixViews>,
    ) -> (r: ExpansionResult<()>)
        requires
            old(coordinates)@.len() <= axes <= batch.2.extents@.len(),
            all_ranked(deep(old(matrices)@), batch@),
        ensures
            match r {
                Ok(_) => matrices_below(
                    self@.shards,
                    batch@,
                    axes as nat,
                    old(coordinates)@,
                    deep(old(matrices)@),
                ) == Ok::<Seq<Matrices>, ExpansionError>(deep(final(matrices)@)) && final(coordinates)@ == old(coordinates)@,
                Err(e) => matrices_below(
                    self@.shards,
                    batch@,
                    axes as nat,
                    old(coordinates)@,
                    deep(old(matrices)@),
                ) == Err::<Seq<Matrices>, ExpansionError>(e),
            },
            r is Ok ==> all_ranked(deep(final(matrices)@), batch@),
        decreases axes - old(coordinates)@.len(),
    {
        broadcast use group_deep;

        let ghost prefix = coordinates@;
        let ghost before = deep(matrices@);
        if coordinates.len() >= axes {
            let shape = copy_all(self.block(batch.2.shard)?.tensor_type.shape.0.as_slice());
            let output = self.block_matrix(&batch.2, shape.as_slice(), coordinates.as_slice())?;
            let left = self.block_matrix(&batch.0, shape.as_slice(), coordinates.as_slice())?;
            let right = self.block_matrix(&batch.1, shape.as_slice(), coordinates.as_slice())?;
            let found = (left, right, output);
            matrices.push(found);
            proof {
                assert(deep(matrices@) == before.push(found@));
            }
            return Ok(());
        }
        let extent: ShardExtent = batch.2.extents[coordinates.len()];
        if extent.logical_end != extent.physical_end {
            return Err(ExpansionError::InvalidOperatorPlan);
        }
        let mut coordinate: u32 = extent.start;
        while coordinate < extent.physical_end
            invariant
                extent.start <= coordinate,
                coordinates@ == prefix,
                all_ranked(deep(matrices@), batch@),
                matrices_below(self@.shards, batch@, axes as nat, prefix, before)
                    == matrices_along(
                    self@.shards,
                    batch@,
                    axes as nat,
                    prefix,
                    coordinate as int,
                    extent.physical_end as int,
                    deep(matrices@),
                ),
            decreases extent.physical_end - coordinate,
        {
            coordinates.push(coordinate);
            self.split_gemm_matrices(batch, axes, coordinates, matrices)?;
            let _ = coordinates.pop();
            assert(coordinates@ =~= prefix);
            coordinate += 1;
        }
        Ok(())
    }

    fn separate_matrices(&self, batch: MatrixViews) -> (r: ExpansionResult<Vec<MatrixViews>>)
        ensures
            match r {
                Ok(matrices) => separate_matrices(self@.shards, batch@) == Ok::<
                    Seq<Matrices>,
                    ExpansionError,
                >(deep(matrices@)) && all_ranked(deep(matrices@), batch@),
                Err(e) => separate_matrices(self@.shards, batch@) == Err::<
                    Seq<Matrices>,
                    ExpansionError,
                >(e),
            },
    {
        broadcast use group_deep;

        let block = self.block(batch.2.shard)?;
        let joined = match block.tensor_type.format.layout.order {
            ElementOrder::Amp(AmpOrder::Left) => true,
            ElementOrder::Amp(AmpOrder::Output) => true,
            _ => false,
        };
        let mut matrices: Vec<MatrixViews> = Vec::new();
        assert(deep(matrices@) =~= Seq::<Matrices>::empty());
        if batch.2.extents.len() > 2 && !joined {
            let mut coordinates: Vec<u32> = Vec::new();
            assert(coordinates@ =~= Seq::<u32>::empty());
            let axes: usize = batch.2.extents.len() - 2;
            self.split_gemm_matrices(&batch, axes, &mut coordinates, &mut matrices)?;
        } else {
            matrices.push(batch);
            assert(deep(matrices@) =~= seq![batch@]);
        }
        Ok(matrices)
    }

    fn narrow_block(&self, id: LowShardId, ranges: &[(usize, u32, u32)]) -> (r: ExpansionResult<
        ShardView,
    >)
        ensures
            obtained(r, narrowed_block(self@.shards, id, ranges@)),
    {
        let view = self.full_view(id)?;
        narrow_block_view(&view, ranges)
    }

    fn append_calls(
        &mut self,
        call: &Call,
        kernel: &TileKernelSpec,
        matrices: &Vec<MatrixViews>,
        width: u32,
    ) -> (r: ExpansionResult<()>)
        requires
            forall|i: int|
                0 <= i < matrices@.len() ==> call.output_column < (
                #[trigger] matrices@[i]).2.extents@.len() && call.right_column
                    < matrices@[i].1.extents@.len() && call.right_inner
                    < matrices@[i].1.extents@.len() && call.left_inner
                    < matrices@[i].0.extents@.len(),
        ensures
            built(
                r,
                final(self)@,
                append_calls_from(
                    old(self)@,
                    call.provenance,
                    call.tile,
                    kernel@,
                    call.product.axes,
                    call@.positions,
                    deep(matrices@),
                    width as int,
                    0,
                ),
            ),
    {
        broadcast use group_deep;

        let ghost start = self@;
        let ghost model = deep(matrices@);
        let mut i: usize = 0;
        while i < matrices.len()
            invariant
                i <= matrices@.len(),
                append_calls_from(
                    start,
                    call.provenance,
                    call.tile,
                    kernel@,
                    call.product.axes,
                    call@.positions,
                    model,
                    width as int,
                    0,
                ) == append_calls_from(
                    self@,
                    call.provenance,
                    call.tile,
                    kernel@,
                    call.product.axes,
                    call@.positions,
                    model,
                    width as int,
                    i as int,
                ),
            decreases matrices@.len() - i,
        {
            let matrix = &matrices[i];
            assert(model[i as int] == matrix@);
            let flops = count_flops(call.product.axes, call, matrix, width)?;
            let mut inputs: Vec<ShardView> = Vec::new();
            inputs.push(matrix.0.duplicate());
            inputs.push(matrix.1.duplicate());
            let mut outputs: Vec<ShardView> = Vec::new();
            outputs.push(matrix.2.duplicate());
            assert(deep(inputs@) =~= seq![matrix@.0, matrix@.1]);
            assert(deep(outputs@) =~= seq![matrix@.2]);
            let run = BlockRun {
                provenance: call.provenance,
                kernel: BlockKernel::Tile(kernel.duplicate()),
                inputs,
                outputs,
                product_flops: Some(flops),
            };
            self.append_kernel(call.tile, run)?;
            i += 1;
        }
        Ok(())
    }

    fn append_product_block(&mut self, call: &Call, columns: (u32, u32), k: u32, width: u32) -> (r:
        ExpansionResult<()>)
        requires
            columns.0 < columns.1,
            call.left_inner < call.left.extents@.len(),
            call.right_inner < call.right.extents@.len(),
            call.left.extents@[call.left_inner as int].start + k + width <= u32::MAX,
            call.right.extents@[call.right_inner as int].start + k + width <= u32::MAX,
        ensures
            built(
                r,
                final(self)@,
                append_product_block(old(self)@, call@, columns, k as int, width as int),
            ),
    {
        broadcast use group_deep;

        let left_start: u32 = call.left.extents[call.left_inner].start + k;
        let right_start: u32 = call.right.extents[call.right_inner].start + k;
        let mut ranges: Vec<(usize, u32, u32)> = Vec::new();
        ranges.push((call.left_inner, left_start, left_start + width));
        assert(ranges@ =~= seq![(call.left_inner, left_start, (left_start + width) as u32)]);
        let left = self.narrow_block(call.left.shard, ranges.as_slice())?;
        assert(call.left_inner < left.extents@.len()) by {
            lemma_narrowed_axis(self@.shards, call.left.shard, ranges@, 0);
        }
        let mut ranges: Vec<(usize, u32, u32)> = Vec::new();
        ranges.push((call.right_inner, right_start, right_start + width));
        ranges.push((call.right_column, columns.0, columns.1));
        assert(ranges@ =~= seq![
            (call.right_inner, right_start, (right_start + width) as u32),
            (call.right_column, columns.0, columns.1),
        ]);
        let right = self.narrow_block(call.right.shard, ranges.as_slice())?;
        assert(call.right_inner < right.extents@.len() && call.right_column
            < right.extents@.len()) by {
            lemma_narrowed_axis(self@.shards, call.right.shard, ranges@, 0);
            lemma_narrowed_axis(self@.shards, call.right.shard, ranges@, 1);
        }
        let mut ranges: Vec<(usize, u32, u32)> = Vec::new();
        ranges.push((call.output_column, columns.0, columns.1));
        assert(ranges@ =~= seq![(call.output_column, columns.0, columns.1)]);
        let output = self.narrow_block(call.output, ranges.as_slice())?;
        assert(call.output_column < output.extents@.len()) by {
            lemma_narrowed_axis(self@.shards, call.output, ranges@, 0);
        }
        let batch = (left, right, output);
        let ghost model = batch@;
        let matrices = self.separate_matrices(batch)?;
        proof {
            assert forall|i: int| 0 <= i < matrices@.len() implies call.output_column < (
            #[trigger] matrices@[i]).2.extents@.len() && call.right_column
                < matrices@[i].1.extents@.len() && call.right_inner
                < matrices@[i].1.extents@.len() && call.left_inner
                < matrices@[i].0.extents@.len() by {
                assert(deep(matrices@)[i] == matrices@[i]@);
                assert(deep(matrices@)[i].0.extents.len() == model.0.extents.len());
            }
        }
        let kernel: TileKernelSpec = KernelSpec::Gemm {
            multiply: call.product.multiply,
            accumulate: call.product.accumulate,
            mode: if k == 0 {
                call.product.mode
            } else {
                GemmMode::Accumulate
            },
            weights: match call.memory_class {
                MemoryClass::Ipu21Interleaved => GemmWeightLoad::Interleaved,
                MemoryClass::Ipu21Standard => GemmWeightLoad::Standard,
            },
            inner_block: width,
            output_columns: columns.1 - columns.0,
        };
        self.append_calls(call, &kernel, &matrices, width)
    }

    fn append_columns(&mut self, call: &Call, inner: u32, step: u32, columns: ShardExtent) -> (r:
        ExpansionResult<()>)
        requires
            step > 0,
            call.product.inner_block > 0,
            call.left_inner < call.left.extents@.len(),
            call.right_inner < call.right.extents@.len(),
            call.left.extents@[call.left_inner as int].start + inner <= u32::MAX,
            call.right.extents@[call.right_inner as int].start + inner <= u32::MAX,
        ensures
            built(
                r,
                final(self)@,
                append_columns_from(
                    old(self)@,
                    call@,
                    inner as int,
                    step as int,
                    columns.start as int,
                    columns.physical_end as int,
                ),
            ),
    {
        let ghost start = self@;
        let end: u32 = columns.physical_end;
        let mut column: u32 = columns.start;
        while column < end
            invariant
                append_columns_from(
                    start,
                    call@,
                    inner as int,
                    step as int,
                    columns.start as int,
                    end as int,
                ) == append_columns_from(
                    self@,
                    call@,
                    inner as int,
                    step as int,
                    column as int,
                    end as int,
                ),
            decreases end - column,
        {
            let next: u32 = if step < end - column {
                column + step
            } else {
                end
            };
            let ghost middle = self@;
            let mut k: u32 = 0;
            while k < inner
                invariant
                    k <= inner,
                    append_inner_from(middle, call@, (column, next), inner as int, 0)
                        == append_inner_from(
                        self@,
                        call@,
                        (column, next),
                        inner as int,
                        k as int,
                    ),
                decreases inner - k,
            {
                let width: u32 = if inner - k <= call.product.inner_block {
                    inner - k
                } else {
                    call.product.inner_block
                };
                self.append_product_block(call, (column, next), k, width)?;
                k = k + width;
            }
            column = next;
        }
        Ok(())
    }

    /// Multiplies two resident views into a block.
    pub fn product_calls<M: BlockTarget>(
        &mut self,
        target: &M,
        provenance: WorkProvenance,
        tile: u16,
        inputs: &Vec<ShardView>,
        output: LowShardId,
        product: Product,
    ) -> (r: ExpansionResult<()>)
        ensures
            built(
                r,
                final(self)@,
                product_calls(
                    target,
                    old(self)@,
                    provenance,
                    tile,
                    deep(inputs@),
                    output,
                    product,
                ),
            ),
    {
        broadcast use group_deep;

        if inputs.len() != 2 {
            return Err(ExpansionError::InvalidOperatorPlan);
        }
        let ghost model = deep(inputs@);
        let left = &inputs[0];
        let right = &inputs[1];
        assert(model[0] == left@);
        assert(model[1] == right@);
        let block = self.block(output)?;
        let weights = self.block(right.shard)?;
        let axes = product.axes;
        let (left_inner, right_inner, output_column) = match (
            axes.left_inner.resolve(left.extents.len()),
            axes.right_inner.resolve(right.extents.len()),
            axes.output_column.resolve(block.extents.len()),
        ) {
            (Some(a), Some(b), Some(c)) => (a, b, c),
            _ => {
                return Err(ExpansionError::Layout(LayoutError::RankMismatch));
            },
        };
        if left.extents.len() < 2 || right.extents.len() < 2 || block.extents.len() < 2 {
            return Err(ExpansionError::InvalidOperatorPlan);
        }
        let left_row = find_partner(left_inner, left.extents.len());
        let right_column = find_partner(right_inner, right.extents.len());
        let output_row = find_partner(output_column, block.extents.len());
        let rows: ShardExtent = left.extents[left_row];
        let result_rows: ShardExtent = block.extents[output_row];
        let weight_columns: ShardExtent = right.extents[right_column];
        let columns: ShardExtent = block.extents[output_column];
        let a: ShardExtent = left.extents[left_inner];
        let b: ShardExtent = right.extents[right_inner];
        if rows.start != result_rows.start || rows.physical_end != result_rows.physical_end
            || weight_columns.start != columns.start || weight_columns.physical_end
            != columns.physical_end || a.start > a.physical_end || b.start > b.physical_end
            || a.physical_end - a.start != b.physical_end - b.start || product.inner_block == 0
            || product.output_columns == 0 {
            return Err(ExpansionError::InvalidOperatorPlan);
        }
        let step: u32 = match target.gemm_output_group(block.tensor_type.format.layout.order) {
            Some(group) => if product.output_columns <= group {
                product.output_columns
            } else {
                group
            },
            None => product.output_columns,
        };
        let memory_class = weights.tensor_type.format.layout.memory_class;
        let call = Call {
            provenance,
            tile,
            left,
            right,
            output,
            product,
            left_inner,
            right_inner,
            right_column,
            output_column,
            left_row,
            output_row,
            memory_class,
        };
        self.append_columns(&call, a.physical_end - a.start, step, columns)
    }
}

fn find_partner(axis: usize, rank: usize) -> (r: usize)
    requires
        axis < rank,
        rank >= 2,
    ensures
        r == partner(axis as int, rank as nat),
        r < rank,
{
    if axis == rank - 1 {
        axis - 1
    } else {
        axis + 1
    }
}

/// An axis that a view was narrowed along is an axis of the view.
proof fn lemma_narrowed_axis(
    shards: Seq<ShardModel>,
    id: LowShardId,
    ranges: Seq<(usize, u32, u32)>,
    k: int,
)
    requires
        0 <= k < ranges.len(),
        narrowed_block(shards, id, ranges) is Ok,
    ensures
        ranges[k].0 < narrowed_block(shards, id, ranges)->Ok_0.extents.len(),
{
    lemma_narrow_from_axis(shards[id.0 as int].extents, ranges, 0, k);
}

proof fn lemma_narrow_from_axis(
    extents: Seq<ShardExtent>,
    ranges: Seq<(usize, u32, u32)>,
    i: int,
    k: int,
)
    requires
        0 <= i <= ranges.len(),
        crate::state::narrow_from(extents, ranges, i) is Ok,
    ensures
        crate::state::narrow_from(extents, ranges, i)->Ok_0.len() == extents.len(),
        i <= k < ranges.len() ==> ranges[k].0 < extents.len(),
    decreases ranges.len() - i,
{
    if i < ranges.len() {
        let (axis, start, end) = ranges[i];
        lemma_narrow_from_axis(
            extents.update(
                axis as int,
                crate::state::narrowed(extents[axis as int], start, end),
            ),
            ranges,
            i + 1,
            k,
        );
    }
}

} // verus!
