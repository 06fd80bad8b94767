//! What a kernel asks of its buffers, and the sizes that a call hands over.

use crate::low::{KernelOperand, ShardView, ViewModel};
use crate::mid::{AccumulationPrecision, KernelModel, KernelSpec, MemoryOperand, TileKernelSpec};
use crate::model::{Model, deep, group_deep};
use crate::tensor::{
    AmpOrder, BlockMajorOrder, ElementOrder, FormatModel, ShardExtent, TensorFormat,
};
use vstd::prelude::*;

verus! {

// ---------------------------------------------------------------- requirements

/// What a kernel asks of one buffer.
#[derive(Debug)]
pub struct KernelAccess {
    pub format: TensorFormat,
    pub alignment: u32,
    /// Bytes after the buffer that the kernel may read.
    pub access_tail_bytes: u32,
}

/// Abstract value of a [`KernelAccess`].
pub struct AccessModel {
    pub format: FormatModel,
    pub alignment: u32,
    pub access_tail_bytes: u32,
}

impl View for KernelAccess {
    type V = AccessModel;

    open spec fn view(&self) -> AccessModel {
        AccessModel {
            format: self.format@,
            alignment: self.alignment,
            access_tail_bytes: self.access_tail_bytes,
        }
    }
}

impl KernelAccess {
    pub fn new(format: TensorFormat, alignment: u32) -> (r: Self)
        ensures
            r@ == (AccessModel { format: format@, alignment, access_tail_bytes: 0 }),
    {
        KernelAccess { format, alignment, access_tail_bytes: 0 }
    }
}

/// Operands that must not share a memory element.
#[derive(Debug)]
pub struct DistinctOperands {
    pub operands: Vec<MemoryOperand>,
}

impl View for DistinctOperands {
    type V = Seq<MemoryOperand>;

    open spec fn view(&self) -> Seq<MemoryOperand> {
        self.operands@
    }
}

/// What a kernel asks of its buffers.
#[derive(Debug)]
pub struct KernelRequirements {
    pub inputs: Vec<KernelAccess>,
    pub output: KernelAccess,
    pub distinct_elements: Vec<DistinctOperands>,
}

/// Abstract value of [`KernelRequirements`].
pub struct CallRequirementsModel {
    pub inputs: Seq<AccessModel>,
    pub output: AccessModel,
    pub distinct_elements: Seq<Seq<MemoryOperand>>,
}

impl View for KernelRequirements {
    type V = CallRequirementsModel;

    open spec fn view(&self) -> CallRequirementsModel {
        CallRequirementsModel {
            inputs: deep(self.inputs@),
            output: self.output@,
            distinct_elements: deep(self.distinct_elements@),
        }
    }
}

/// Alignment of the buffers of a kernel.
pub open spec fn alignment_of(kernel: KernelModel) -> u32 {
    match kernel {
        KernelSpec::Gemm { .. } => 32,
        KernelSpec::Rearrange { .. } => 2,
        _ => 8,
    }
}

/// Bytes after the first input that a kernel may read.
pub open spec fn tail_of(kernel: KernelModel, input: int) -> u32 {
    match kernel {
        KernelSpec::Gemm { multiply, .. } => if input == 0 {
            (8 * multiply.spec_bytes()) as u32
        } else {
            0
        },
        _ => 0,
    }
}

/// What a kernel asks of its buffers. A product reads past its left operand,
/// which must not share memory with the result.
pub open spec fn requirements_of(
    kernel: KernelModel,
    inputs: Seq<FormatModel>,
    output: FormatModel,
) -> CallRequirementsModel {
    CallRequirementsModel {
        inputs: Seq::new(
            inputs.len(),
            |i: int|
                AccessModel {
                    format: inputs[i],
                    alignment: alignment_of(kernel),
                    access_tail_bytes: tail_of(kernel, i),
                },
        ),
        output: AccessModel {
            format: output,
            alignment: alignment_of(kernel),
            access_tail_bytes: 0,
        },
        distinct_elements: if kernel is Gemm && inputs.len() > 0 {
            seq![seq![MemoryOperand::Output, MemoryOperand::Input(0)]]
        } else {
            Seq::empty()
        },
    }
}

impl KernelRequirements {
    pub fn new(kernel: &TileKernelSpec, inputs: &Vec<TensorFormat>, output: TensorFormat) -> (r: Self)
        ensures
            r@ == requirements_of(kernel@, deep(inputs@), output@),
    {
        broadcast use group_deep;

        let (alignment, tail): (u32, u32) = match kernel {
            KernelSpec::Gemm { multiply, .. } => (32, 8 * multiply.bytes() as u32),
            KernelSpec::Rearrange { .. } => (2, 0),
            _ => (8, 0),
        };
        let gemm = match kernel {
            KernelSpec::Gemm { .. } => true,
            _ => false,
        };
        let ghost expected = requirements_of(kernel@, deep(inputs@), output@);
        let mut accesses: Vec<KernelAccess> = Vec::new();
        let mut i: usize = 0;
        while i < inputs.len()
            invariant
                i <= inputs@.len(),
                accesses@.len() == i,
                forall|k: int| 0 <= k < i ==> (#[trigger] accesses@[k])@ == expected.inputs[k],
            decreases inputs@.len() - i,
        {
            let mut access = KernelAccess::new(inputs[i].duplicate(), alignment);
            if i == 0 {
                access.access_tail_bytes = tail;
            }
            accesses.push(access);
            i += 1;
        }
        assert(deep(accesses@) =~= expected.inputs);
        let mut distinct: Vec<DistinctOperands> = Vec::new();
        if gemm && inputs.len() > 0 {
            let mut operands: Vec<MemoryOperand> = Vec::new();
            operands.push(MemoryOperand::Output);
            operands.push(MemoryOperand::Input(0));
            assert(operands@ =~= seq![MemoryOperand::Output, MemoryOperand::Input(0)]);
            distinct.push(DistinctOperands { operands });
        }
        assert(deep(distinct@) =~= expected.distinct_elements);
        KernelRequirements {
            inputs: accesses,
            output: KernelAccess::new(output, alignment),
            distinct_elements: distinct,
        }
    }
}

// ---------------------------------------------------------------- sizes

/// Why a kernel cannot be called.
#[derive(Debug)]
pub enum KernelAbiError {
    RequirementMismatch,
    PointerArity { expected: usize, actual: usize },
    FragmentedOperand(usize),
    Unavailable(TileKernelSpec),
    MissingGemmRows,
    ElementCountOverflow,
    UnsupportedElementCount { symbol: &'static str, count: u32, divisor: u32 },
}

/// Every range ends after it starts.
pub open spec fn are_ranges(extents: Seq<ShardExtent>) -> bool {
    forall|i: int|
        0 <= i < extents.len() ==> (#[trigger] extents[i]).start <= extents[i].logical_end
            <= extents[i].physical_end
}

/// Elements of a range, with or without padding.
pub open spec fn width_of(extent: ShardExtent, logical: bool) -> int {
    if logical {
        extent.logical_end - extent.start
    } else {
        extent.physical_end - extent.start
    }
}

/// `acc` times the padded widths of the axes from `i` up to `end`, without one
/// axis.
pub open spec fn widths_from(extents: Seq<ShardExtent>, skipped: int, i: int, end: int, acc: int) -> Option<
    int,
>
    decreases end - i,
{
    if i >= end {
        Some(acc)
    } else if i == skipped {
        widths_from(extents, skipped, i + 1, end, acc)
    } else if acc * width_of(extents[i], false) > u32::MAX {
        None
    } else {
        widths_from(extents, skipped, i + 1, end, acc * width_of(extents[i], false))
    }
}

/// The result of a product is stored column by column.
pub open spec fn is_transposed(order: ElementOrder) -> bool {
    match order {
        ElementOrder::Amp(AmpOrder::TransposedLeft) => true,
        ElementOrder::Amp(AmpOrder::TransposedRight) => true,
        ElementOrder::Amp(AmpOrder::TransposedOutput) => true,
        ElementOrder::BlockMajor(BlockMajorOrder::TransposedMatrix { .. }) => true,
        _ => false,
    }
}

/// Rows of a product: all elements but those of the column axis.
pub open spec fn rows_of(extents: Seq<ShardExtent>, order: ElementOrder) -> Option<int> {
    let from_end: int = if is_transposed(order) {
        2
    } else {
        1
    };
    if extents.len() < from_end {
        None
    } else {
        match widths_from(extents, extents.len() - from_end, 0, extents.len() as int, 1) {
            Some(rows) => if rows == 0 {
                None
            } else {
                Some(rows)
            },
            None => None,
        }
    }
}

/// Width of one axis of a matrix.
pub open spec fn matrix_width(extents: Seq<ShardExtent>, logical: bool, columns: bool) -> Option<int> {
    let from_end: int = if columns {
        1
    } else {
        2
    };
    if extents.len() < from_end {
        None
    } else {
        Some(width_of(extents[extents.len() - from_end], logical))
    }
}

/// The first view of the first operand.
pub open spec fn first_view(inputs: Seq<Seq<ViewModel>>) -> Option<ViewModel> {
    if inputs.len() == 0 || inputs[0].len() == 0 {
        None
    } else {
        Some(inputs[0][0])
    }
}

fn multiply_widths(extents: &Vec<ShardExtent>, skipped: usize, end: usize) -> (r: Option<u32>)
    requires
        are_ranges(extents@),
        end <= extents@.len(),
    ensures
        match r {
            Some(product) => widths_from(extents@, skipped as int, 0, end as int, 1) == Some(
                product as int,
            ),
            None => widths_from(extents@, skipped as int, 0, end as int, 1) is None,
        },
{
    let mut product: u32 = 1;
    let mut i: usize = 0;
    while i < end
        invariant
            i <= end,
            widths_from(extents@, skipped as int, 0, end as int, 1) == widths_from(
                extents@,
                skipped as int,
                i as int,
                end as int,
                product as int,
            ),
        decreases end - i,
    {
        if i != skipped {
            assert(extents@[i as int].start <= extents@[i as int].physical_end);
            match product.checked_mul(extents[i].physical_end - extents[i].start) {
                Some(more) => {
                    product = more;
                },
                None => {
                    return None;
                },
            }
        }
        i += 1;
    }
    Some(product)
}

fn is_stored_transposed(order: ElementOrder) -> (r: bool)
    ensures
        r == is_transposed(order),
{
    match order {
        ElementOrder::Amp(AmpOrder::TransposedLeft) => true,
        ElementOrder::Amp(AmpOrder::TransposedRight) => true,
        ElementOrder::Amp(AmpOrder::TransposedOutput) => true,
        ElementOrder::BlockMajor(BlockMajorOrder::TransposedMatrix { .. }) => true,
        _ => false,
    }
}

/// Rows that a product writes.
pub fn gemm_rows(output: &ShardView, order: ElementOrder) -> (r: Result<u32, KernelAbiError>)
    requires
        are_ranges(output@.extents),
    ensures
        match r {
            Ok(rows) => rows_of(output@.extents, order) == Some(rows as int),
            Err(e) => e is MissingGemmRows && rows_of(output@.extents, order) is None,
        },
{
    let rank = output.extents.len();
    let from_end: usize = if is_stored_transposed(order) {
        2
    } else {
        1
    };
    if rank < from_end {
        return Err(KernelAbiError::MissingGemmRows);
    }
    match multiply_widths(&output.extents, rank - from_end, rank) {
        Some(rows) => {
            if rows == 0 {
                Err(KernelAbiError::MissingGemmRows)
            } else {
                Ok(rows)
            }
        },
        None => Err(KernelAbiError::MissingGemmRows),
    }
}

fn width_in(extents: &Vec<ShardExtent>, logical: bool, columns: bool) -> (r: Result<
    u32,
    KernelAbiError,
>)
    requires
        are_ranges(extents@),
    ensures
        match r {
            Ok(width) => matrix_width(extents@, logical, columns) == Some(width as int),
            Err(e) => e is RequirementMismatch && matrix_width(extents@, logical, columns) is None,
        },
{
    let rank = extents.len();
    let from_end: usize = if columns {
        1
    } else {
        2
    };
    if rank < from_end {
        return Err(KernelAbiError::RequirementMismatch);
    }
    let extent: ShardExtent = extents[rank - from_end];
    assert(extents@[rank - from_end] == extent);
    if logical {
        Ok(extent.logical_end - extent.start)
    } else {
        Ok(extent.physical_end - extent.start)
    }
}

/// Rows or columns of the result.
pub fn matrix_extent(output: &ShardView, logical: bool, columns: bool) -> (r: Result<
    u32,
    KernelAbiError,
>)
    requires
        are_ranges(output@.extents),
    ensures
        match r {
            Ok(width) => matrix_width(output@.extents, logical, columns) == Some(width as int),
            Err(e) => e is RequirementMismatch && matrix_width(output@.extents, logical, columns)
                is None,
        },
{
    width_in(&output.extents, logical, columns)
}

/// Rows or columns of the first input.
pub fn input_matrix_extent(inputs: &Vec<KernelOperand>, logical: bool, columns: bool) -> (r: Result<
    u32,
    KernelAbiError,
>)
    requires
        first_view(deep(inputs@)) matches Some(view) ==> are_ranges(view.extents),
    ensures
        match first_view(deep(inputs@)) {
            None => r matches Err(e) && e is RequirementMismatch,
            Some(view) => match r {
                Ok(width) => matrix_width(view.extents, logical, columns) == Some(width as int),
                Err(e) => e is RequirementMismatch && matrix_width(view.extents, logical, columns)
                    is None,
            },
        },
{
    broadcast use group_deep;

    if inputs.len() == 0 || inputs[0].views.len() == 0 {
        return Err(KernelAbiError::RequirementMismatch);
    }
    width_in(&inputs[0].views[0].extents, logical, columns)
}

/// Axes before the last two.
pub open spec fn leading_axes(rank: nat) -> int {
    if rank >= 2 {
        rank - 2
    } else {
        0
    }
}

/// Number of matrices of a rectangle.
pub open spec fn matrices_in(extents: Seq<ShardExtent>) -> Option<int> {
    widths_from(extents, -1, 0, leading_axes(extents.len()), 1)
}

fn count_leading(extents: &Vec<ShardExtent>) -> (r: Result<u32, KernelAbiError>)
    requires
        are_ranges(extents@),
    ensures
        match r {
            Ok(count) => matrices_in(extents@) == Some(count as int),
            Err(e) => e is ElementCountOverflow && matrices_in(extents@) is None,
        },
{
    let rank = extents.len();
    let end: usize = if rank >= 2 {
        rank - 2
    } else {
        0
    };
    proof {
        lemma_nothing_skipped(extents@, rank as int, 0, end as int, 1);
    }
    match multiply_widths(extents, rank, end) {
        Some(count) => Ok(count),
        None => Err(KernelAbiError::ElementCountOverflow),
    }
}

proof fn lemma_nothing_skipped(extents: Seq<ShardExtent>, skipped: int, i: int, end: int, acc: int)
    requires
        0 <= i,
        end <= skipped,
    ensures
        widths_from(extents, skipped, i, end, acc) == widths_from(extents, -1, i, end, acc),
    decreases end - i,
{
    if i < end {
        lemma_nothing_skipped(extents, skipped, i + 1, end, acc * width_of(extents[i], false));
    }
}

/// Number of matrices of the first input.
pub fn matrix_count(inputs: &Vec<KernelOperand>) -> (r: Result<u32, KernelAbiError>)
    requires
        first_view(deep(inputs@)) matches Some(view) ==> are_ranges(view.extents),
    ensures
        match first_view(deep(inputs@)) {
            None => r matches Err(e) && e is RequirementMismatch,
            Some(view) => match r {
                Ok(count) => matrices_in(view.extents) == Some(count as int),
                Err(e) => e is ElementCountOverflow && matrices_in(view.extents) is None,
            },
        },
{
    broadcast use group_deep;

    if inputs.len() == 0 || inputs[0].views.len() == 0 {
        return Err(KernelAbiError::RequirementMismatch);
    }
    count_leading(&inputs[0].views[0].extents)
}

// ---------------------------------------------------------------- attention

/// Sizes of a call of the attention kernel.
#[derive(Clone, Copy, Debug, PartialEq, Eq, Structural)]
pub struct AttentionKernelShape {
    pub matrices: u32,
    pub query_rows: u32,
    pub key_rows: u32,
    pub query_dimension: u32,
    pub value_dimension: u32,
    /// Bits of the scale, if one was asked for. Otherwise it follows from the
    /// query dimension.
    pub scale_bits: Option<u32>,
}

/// The operands are one view each, and agree as matrices.
pub open spec fn attend(query: Seq<ViewModel>, key: Seq<ViewModel>, value: Seq<ViewModel>) -> bool {
    &&& query.len() == 1 && key.len() == 1 && value.len() == 1
    &&& query[0].extents.len() >= 2
    &&& key[0].extents.len() == query[0].extents.len()
    &&& value[0].extents.len() == query[0].extents.len()
    &&& forall|i: int|
        0 <= i < query[0].extents.len() - 2 ==> width_of(#[trigger] query[0].extents[i], false)
            == width_of(key[0].extents[i], false) && width_of(query[0].extents[i], false)
            == width_of(value[0].extents[i], false)
    &&& matrix_width(query[0].extents, false, true) == matrix_width(key[0].extents, false, true)
    &&& matrix_width(key[0].extents, false, false) == matrix_width(value[0].extents, false, false)
}

/// The kernel and its operands can be called as attention.
pub open spec fn is_attention(kernel: KernelModel, inputs: Seq<Seq<ViewModel>>) -> bool {
    &&& kernel matches KernelSpec::FlashAttention { options, accumulate } && !options.causal
        && accumulate == AccumulationPrecision::F32
    &&& inputs.len() == 3
    &&& attend(inputs[0], inputs[1], inputs[2])
}

fn have_equal_widths(a: &Vec<ShardExtent>, b: &Vec<ShardExtent>, end: usize) -> (r: bool)
    requires
        end <= a@.len(),
        end <= b@.len(),
    ensures
        r == forall|i: int|
            0 <= i < end ==> width_of(#[trigger] a@[i], false) == width_of(b@[i], false),
{
    let mut i: usize = 0;
    while i < end
        invariant
            i <= end,
            forall|k: int|
                0 <= k < i ==> width_of(#[trigger] a@[k], false) == width_of(b@[k], false),
        decreases end - i,
    {
        if a[i].physical_end as i64 - a[i].start as i64 != b[i].physical_end as i64
            - b[i].start as i64 {
            assert(width_of(a@[i as int], false) != width_of(b@[i as int], false));
            return false;
        }
        i += 1;
    }
    true
}

/// Sizes of a call of the attention kernel.
pub fn attention_shape(kernel: &TileKernelSpec, inputs: &Vec<KernelOperand>) -> (r: Result<
    AttentionKernelShape,
    KernelAbiError,
>)
    requires
        forall|i: int, j: int|
            0 <= i < inputs@.len() && 0 <= j < deep(inputs@)[i].len() ==> are_ranges(
                (#[trigger] deep(inputs@)[i][j]).extents,
            ),
    ensures
        match r {
            Ok(shape) => is_attention(kernel@, deep(inputs@)) && ({
                let query = deep(inputs@)[0][0].extents;
                let key = deep(inputs@)[1][0].extents;
                let value = deep(inputs@)[2][0].extents;
                &&& matrices_in(query) == Some(shape.matrices as int)
                &&& matrix_width(query, false, false) == Some(shape.query_rows as int)
                &&& matrix_width(key, false, false) == Some(shape.key_rows as int)
                &&& matrix_width(query, false, true) == Some(shape.query_dimension as int)
                &&& matrix_width(value, false, true) == Some(shape.value_dimension as int)
                &&& kernel@ matches KernelSpec::FlashAttention { options, .. }
                    && options.scale_bits == shape.scale_bits
            }),
            Err(KernelAbiError::ElementCountOverflow) => is_attention(kernel@, deep(inputs@))
                && matrices_in(deep(inputs@)[0][0].extents) is None,
            Err(e) => e is RequirementMismatch && !is_attention(kernel@, deep(inputs@)),
        },
{
    broadcast use group_deep;

    let scale_bits = match kernel {
        KernelSpec::FlashAttention { options, accumulate } => {
            let wide = match accumulate {
                AccumulationPrecision::F32 => true,
                _ => false,
            };
            if options.causal || !wide {
                return Err(KernelAbiError::RequirementMismatch);
            }
            options.scale_bits
        },
        _ => {
            return Err(KernelAbiError::RequirementMismatch);
        },
    };
    if inputs.len() != 3 {
        return Err(KernelAbiError::RequirementMismatch);
    }
    if inputs[0].views.len() != 1 || inputs[1].views.len() != 1 || inputs[2].views.len() != 1 {
        return Err(KernelAbiError::RequirementMismatch);
    }
    let ghost model = deep(inputs@);
    let query = &inputs[0].views[0].extents;
    let key = &inputs[1].views[0].extents;
    let value = &inputs[2].views[0].extents;
    assert(model[0][0].extents == query@);
    assert(model[1][0].extents == key@);
    assert(model[2][0].extents == value@);
    let rank = query.len();
    if rank < 2 || key.len() != rank || value.len() != rank {
        return Err(KernelAbiError::RequirementMismatch);
    }
    let leading_agree = have_equal_widths(query, key, rank - 2) && have_equal_widths(
        query,
        value,
        rank - 2,
    );
    let query_rows: u32 = width_in(query, false, false)?;
    let key_rows: u32 = width_in(key, false, false)?;
    let value_rows: u32 = width_in(value, false, false)?;
    let query_dimension: u32 = width_in(query, false, true)?;
    let key_dimension: u32 = width_in(key, false, true)?;
    let value_dimension: u32 = width_in(value, false, true)?;
    if !leading_agree || query_dimension != key_dimension || key_rows != value_rows {
        return Err(KernelAbiError::RequirementMismatch);
    }
    let matrices: u32 = count_leading(query)?;
    Ok(
        AttentionKernelShape {
            matrices,
            query_rows,
            key_rows,
            query_dimension,
            value_dimension,
            scale_bits,
        },
    )
}

} // verus!
