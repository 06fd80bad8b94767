//! Which values of a repeated region may share storage, and what storage its
//! arguments need.

use crate::extents::{max, max_u32};
use crate::low::{LowLoweringError, LowLoweringResult, LowShardId, ShardModel};
use crate::mid::{MidOperation, MidValueId, OperandRequirement, OutputAliasing};
use crate::reduction_sum::{volume, volume_of};
use crate::state::{shard_of, LoweringState};
use vstd::prelude::*;

verus! {

// ---------------------------------------------------------------- aliases

/// The first operation from `k` on that defines a value.
pub open spec fn definition_from(operations: Seq<MidOperation>, value: MidValueId, k: int) -> Option<
    int,
>
    decreases operations.len() - k,
{
    if k >= operations.len() {
        None
    } else if operations[k].results@.contains(value) {
        Some(k)
    } else {
        definition_from(operations, value, k + 1)
    }
}

/// The result of the operation may take the storage of its input `i`.
pub open spec fn may_alias_input(operation: MidOperation, i: int) -> bool {
    match operation.operator_plan {
        None => false,
        Some(plan) => match plan.requirements.output_aliasing {
            OutputAliasing::Fresh => false,
            OutputAliasing::MayAliasInputs(indices) => exists|j: int|
                0 <= j < indices@.len() && (#[trigger] indices@[j]) == i,
            OutputAliasing::MustAliasInput(index) => index == i,
        },
    }
}

/// The operation may take the storage of an input that leads to the target
/// within `fuel` further operations.
pub open spec fn operation_leads(
    operations: Seq<MidOperation>,
    k: int,
    target: MidValueId,
    fuel: nat,
) -> bool
    decreases fuel, 1nat,
{
    exists|i: int|
        0 <= i < operations[k].inputs@.len() && #[trigger] may_alias_input(operations[k], i)
            && leads_within(operations, operations[k].inputs@[i], target, fuel)
}

/// The value is the target, or takes its storage through at most `fuel`
/// operations.
pub open spec fn leads_within(
    operations: Seq<MidOperation>,
    value: MidValueId,
    target: MidValueId,
    fuel: nat,
) -> bool
    decreases fuel, 0nat,
{
    ||| value == target
    ||| fuel > 0 && definition_from(operations, value, 0) is Some && operation_leads(
        operations,
        definition_from(operations, value, 0)->Some_0,
        target,
        (fuel - 1) as nat,
    )
}

/// The value may take the storage of the target.
pub open spec fn can_alias(
    operations: Seq<MidOperation>,
    value: MidValueId,
    target: MidValueId,
) -> bool {
    exists|fuel: nat| leads_within(operations, value, target, fuel)
}

/// More operations on the way only add possibilities.
proof fn lemma_leads_monotonic(
    operations: Seq<MidOperation>,
    value: MidValueId,
    target: MidValueId,
    fuel: nat,
    more: nat,
)
    requires
        fuel <= more,
        leads_within(operations, value, target, fuel),
    ensures
        leads_within(operations, value, target, more),
    decreases fuel,
{
    if value != target {
        let k = definition_from(operations, value, 0)->Some_0;
        let i = choose|i: int|
            0 <= i < operations[k].inputs@.len() && #[trigger] may_alias_input(operations[k], i)
                && leads_within(operations, operations[k].inputs@[i], target, (fuel - 1) as nat);
        lemma_leads_monotonic(
            operations,
            operations[k].inputs@[i],
            target,
            (fuel - 1) as nat,
            (more - 1) as nat,
        );
        assert(operation_leads(operations, k, target, (more - 1) as nat));
    }
}

/// The operations that lead to the target within `fuel` further operations.
spec fn leading(operations: Seq<MidOperation>, target: MidValueId, fuel: nat) -> Set<int> {
    Set::new(|k: int| 0 <= k < operations.len() && operation_leads(operations, k, target, fuel))
}

proof fn lemma_leading_is_finite(operations: Seq<MidOperation>, target: MidValueId, fuel: nat)
    ensures
        leading(operations, target, fuel).finite(),
        leading(operations, target, fuel).len() <= operations.len(),
{
    let all = vstd::set_lib::set_int_range(0, operations.len() as int);
    vstd::set_lib::lemma_int_range(0, operations.len() as int);
    assert(leading(operations, target, fuel).subset_of(all));
    vstd::set_lib::lemma_len_subset(leading(operations, target, fuel), all);
}

proof fn lemma_leading_grows(operations: Seq<MidOperation>, target: MidValueId, fuel: nat)
    ensures
        leading(operations, target, fuel).subset_of(leading(operations, target, fuel + 1)),
{
    let here = leading(operations, target, fuel);
    let next = leading(operations, target, fuel + 1);
    assert forall|k: int| here.contains(k) implies next.contains(k) by {
        let i = choose|i: int|
            0 <= i < operations[k].inputs@.len() && #[trigger] may_alias_input(operations[k], i)
                && leads_within(operations, operations[k].inputs@[i], target, fuel);
        lemma_leads_monotonic(operations, operations[k].inputs@[i], target, fuel, fuel + 1);
        assert(operation_leads(operations, k, target, fuel + 1));
    }
}

proof fn lemma_definition_in_range(operations: Seq<MidOperation>, value: MidValueId, k: int)
    requires
        0 <= k,
    ensures
        definition_from(operations, value, k) matches Some(d) ==> k <= d < operations.len(),
    decreases operations.len() - k,
{
    if k < operations.len() && !operations[k].results@.contains(value) {
        lemma_definition_in_range(operations, value, k + 1);
    }
}

/// Once one more operation adds nothing, no number of operations does.
proof fn lemma_leading_is_stable(
    operations: Seq<MidOperation>,
    target: MidValueId,
    fuel: nat,
    more: nat,
)
    requires
        fuel <= more,
        leading(operations, target, fuel) =~= leading(operations, target, fuel + 1),
    ensures
        leading(operations, target, fuel) =~= leading(operations, target, more),
    decreases more - fuel,
{
    if fuel < more {
        // The same holds one step later: a step from a value looks only at the
        // operation that defines it.
        let later = leading(operations, target, fuel + 2);
        let here = leading(operations, target, fuel + 1);
        assert forall|k: int| later.contains(k) implies here.contains(k) by {
            let i = choose|i: int|
                0 <= i < operations[k].inputs@.len() && #[trigger] may_alias_input(
                    operations[k],
                    i,
                ) && leads_within(operations, operations[k].inputs@[i], target, fuel + 2);
            let input = operations[k].inputs@[i];
            if input != target {
                lemma_definition_in_range(operations, input, 0);
                let d = definition_from(operations, input, 0)->Some_0;
                assert(here.contains(d));
                assert(leading(operations, target, fuel).contains(d));
                assert(operation_leads(operations, d, target, fuel));
            }
            assert(leads_within(operations, input, target, fuel + 1));
            assert(operation_leads(operations, k, target, fuel + 1));
        }
        lemma_leading_grows(operations, target, fuel + 1);
        assert(here =~= later);
        lemma_leading_is_stable(operations, target, fuel + 1, more);
    }
}

/// Only an operation that some operation leads to directly can be followed by
/// others.
proof fn lemma_leading_starts(operations: Seq<MidOperation>, target: MidValueId, k: int)
    requires
        leading(operations, target, 1).contains(k),
        !leading(operations, target, 0).contains(k),
    ensures
        leading(operations, target, 0).finite(),
        leading(operations, target, 0).len() > 0,
{
    lemma_leading_is_finite(operations, target, 0);
    let i = choose|i: int|
        0 <= i < operations[k].inputs@.len() && #[trigger] may_alias_input(operations[k], i)
            && leads_within(operations, operations[k].inputs@[i], target, 1);
    let input = operations[k].inputs@[i];
    assert(input != target) by {
        if input == target {
            assert(leads_within(operations, input, target, 0));
            assert(operation_leads(operations, k, target, 0));
        }
    }
    lemma_definition_in_range(operations, input, 0);
    let d = definition_from(operations, input, 0)->Some_0;
    assert(leading(operations, target, 0).contains(d));
    assert(leading(operations, target, 0).len() > 0) by {
        if leading(operations, target, 0).len() == 0 {
            assert(leading(operations, target, 0) =~= Set::empty());
        }
    }
}

/// Either nothing more is found from some number of operations up to `n` on, or
/// each of them found another operation.
proof fn lemma_leading_settles(operations: Seq<MidOperation>, target: MidValueId, n: nat) -> (found:
    Option<nat>)
    ensures
        match found {
            Some(m) => m <= n && leading(operations, target, m) =~= leading(
                operations,
                target,
                m + 1,
            ),
            None => leading(operations, target, n + 1).len() > n + 1,
        },
    decreases n,
{
    lemma_leading_grows(operations, target, n);
    lemma_leading_is_finite(operations, target, n);
    lemma_leading_is_finite(operations, target, n + 1);
    let here = leading(operations, target, n);
    let next = leading(operations, target, n + 1);
    if here =~= next {
        Some(n)
    } else {
        let extra = choose|k: int| next.contains(k) && !here.contains(k);
        assert(here.insert(extra).subset_of(next));
        vstd::set_lib::lemma_len_subset(here.insert(extra), next);
        if n == 0 {
            lemma_leading_starts(operations, target, extra);
            assert(here.len() > 0);
            None
        } else {
            lemma_leading_settles(operations, target, (n - 1) as nat)
        }
    }
}

/// A value that takes the storage of another one does so through no more
/// operations than there are.
pub proof fn lemma_alias_search_is_complete(
    operations: Seq<MidOperation>,
    value: MidValueId,
    target: MidValueId,
)
    ensures
        can_alias(operations, value, target) == leads_within(
            operations,
            value,
            target,
            operations.len(),
        ),
{
    if can_alias(operations, value, target) && value != target {
        let fuel = choose|fuel: nat| leads_within(operations, value, target, fuel);
        lemma_definition_in_range(operations, value, 0);
        let d = definition_from(operations, value, 0)->Some_0;
        assert(leading(operations, target, (fuel - 1) as nat).contains(d));
        let n = (operations.len() - 1) as nat;
        lemma_leading_is_finite(operations, target, n + 1);
        match lemma_leading_settles(operations, target, n) {
            Some(m) => {
                if fuel - 1 <= m {
                    lemma_leads_monotonic(operations, value, target, fuel, m + 1);
                } else {
                    lemma_leading_is_stable(operations, target, m, (fuel - 1) as nat);
                    assert(leading(operations, target, m).contains(d));
                    assert(leads_within(operations, value, target, m + 1));
                }
                lemma_leads_monotonic(operations, value, target, m + 1, n + 1);
            },
            None => {
                assert(false);
            },
        }
    }
}

/// The value that a repeat yields may take the storage of the carried value:
/// because it aliases it, or because nothing reads the carried value once the
/// yielded one is defined.
pub open spec fn yield_can_alias(
    operations: Seq<MidOperation>,
    value: MidValueId,
    carried: MidValueId,
) -> bool {
    ||| can_alias(operations, value, carried)
    ||| match definition_from(operations, value, 0) {
        None => false,
        Some(definition) => forall|k: int|
            definition <= k < operations.len() ==> !(
            #[trigger] operations[k]).inputs@.contains(carried),
    }
}

// ---------------------------------------------------------------- requirements

/// What an operation requires of its input `index`.
pub open spec fn input_requirement(operation: MidOperation, index: int) -> Option<
    OperandRequirement,
> {
    match operation.operator_plan {
        Some(plan) if index < plan.requirements.inputs@.len() => Some(
            plan.requirements.inputs@[index],
        ),
        _ => match operation.conversion_plan {
            Some(plan) => Some(plan.input),
            None => None,
        },
    }
}

/// `found` raised by what an operation requires of the inputs from `i` on that
/// are the value.
pub open spec fn requirement_from(
    operation: MidOperation,
    value: MidValueId,
    i: int,
    found: (u32, u32),
) -> (u32, u32)
    decreases operation.inputs@.len() - i,
{
    if i >= operation.inputs@.len() {
        found
    } else {
        requirement_from(
            operation,
            value,
            i + 1,
            match input_requirement(operation, i) {
                Some(requirement) if operation.inputs@[i] == value => (
                    max(found.0, requirement.alignment),
                    max(found.1, requirement.access_tail_bytes),
                ),
                _ => found,
            },
        )
    }
}

/// `found` raised by what the operations from `k` on require of the value.
pub open spec fn storage_requirement_from(
    operations: Seq<MidOperation>,
    value: MidValueId,
    k: int,
    found: (u32, u32),
) -> (u32, u32)
    decreases operations.len() - k,
{
    if k >= operations.len() {
        found
    } else {
        storage_requirement_from(
            operations,
            value,
            k + 1,
            requirement_from(operations[k], value, 0, found),
        )
    }
}

/// Alignment and access tail that the operations require of a value.
pub open spec fn storage_requirement(operations: Seq<MidOperation>, value: MidValueId) -> (u32, u32) {
    storage_requirement_from(operations, value, 0, (8, 0))
}

/// Distance in bytes between consecutive blocks like the shard.
pub open spec fn stride_of(shard: ShardModel, alignment: u32, access_tail: u32) -> Result<
    u32,
    LowLoweringError,
> {
    match volume(shard.extents, u64::MAX as int) {
        Err(e) => Err(e),
        Ok(elements) => {
            let used = elements * shard.tensor_type.format.precision.spec_bytes() + access_tail;
            let unit = max(alignment, 1) as int;
            if elements * shard.tensor_type.format.precision.spec_bytes() > u64::MAX || used
                + unit - 1 > u64::MAX || (used + unit - 1) / unit * unit > u32::MAX {
                Err(LowLoweringError::IdOverflow)
            } else {
                Ok(((used + unit - 1) / unit * unit) as u32)
            }
        },
    }
}

// ---------------------------------------------------------------- carrying out

fn defines(operation: &MidOperation, value: MidValueId) -> (r: bool)
    ensures
        r == operation.results@.contains(value),
{
    let mut i: usize = 0;
    while i < operation.results.len()
        invariant
            i <= operation.results@.len(),
            forall|j: int| 0 <= j < i ==> operation.results@[j] != value,
        decreases operation.results@.len() - i,
    {
        if operation.results[i] == value {
            assert(operation.results@[i as int] == value);
            return true;
        }
        i += 1;
    }
    false
}

fn reads(operation: &MidOperation, value: MidValueId) -> (r: bool)
    ensures
        r == operation.inputs@.contains(value),
{
    let mut i: usize = 0;
    while i < operation.inputs.len()
        invariant
            i <= operation.inputs@.len(),
            forall|j: int| 0 <= j < i ==> operation.inputs@[j] != value,
        decreases operation.inputs@.len() - i,
    {
        if operation.inputs[i] == value {
            assert(operation.inputs@[i as int] == value);
            return true;
        }
        i += 1;
    }
    false
}

fn find_definition(operations: &Vec<MidOperation>, value: MidValueId) -> (r: Option<usize>)
    ensures
        match r {
            Some(k) => definition_from(operations@, value, 0) == Some(k as int) && k
                < operations@.len(),
            None => definition_from(operations@, value, 0) is None,
        },
{
    let mut k: usize = 0;
    while k < operations.len()
        invariant
            k <= operations@.len(),
            definition_from(operations@, value, 0) == definition_from(
                operations@,
                value,
                k as int,
            ),
        decreases operations@.len() - k,
    {
        if defines(&operations[k], value) {
            return Some(k);
        }
        k += 1;
    }
    None
}

fn is_alias_input(operation: &MidOperation, i: usize) -> (r: bool)
    ensures
        r == may_alias_input(*operation, i as int),
{
    match &operation.operator_plan {
        None => false,
        Some(plan) => match &plan.requirements.output_aliasing {
            OutputAliasing::Fresh => false,
            OutputAliasing::MayAliasInputs(indices) => {
                let mut j: usize = 0;
                while j < indices.len()
                    invariant
                        j <= indices@.len(),
                        forall|k: int| 0 <= k < j ==> (#[trigger] indices@[k]) != i,
                    decreases indices@.len() - j,
                {
                    if indices[j] as usize == i {
                        return true;
                    }
                    j += 1;
                }
                false
            },
            OutputAliasing::MustAliasInput(index) => *index as usize == i,
        },
    }
}

fn leads(operations: &Vec<MidOperation>, value: MidValueId, target: MidValueId, fuel: usize) -> (r:
    bool)
    ensures
        r == leads_within(operations@, value, target, fuel as nat),
    decreases fuel,
{
    if value == target {
        return true;
    }
    if fuel == 0 {
        return false;
    }
    match find_definition(operations, value) {
        None => false,
        Some(k) => {
            let operation = &operations[k];
            let mut i: usize = 0;
            while i < operation.inputs.len()
                invariant
                    i <= operation.inputs@.len(),
                    forall|j: int|
                        0 <= j < i && #[trigger] may_alias_input(*operation, j) ==> !leads_within(
                            operations@,
                            operation.inputs@[j],
                            target,
                            (fuel - 1) as nat,
                        ),
                decreases operation.inputs@.len() - i,
            {
                if is_alias_input(operation, i) && leads(
                    operations,
                    operation.inputs[i],
                    target,
                    fuel - 1,
                ) {
                    assert(operation_leads(operations@, k as int, target, (fuel - 1) as nat));
                    return true;
                }
                i += 1;
            }
            assert(!operation_leads(operations@, k as int, target, (fuel - 1) as nat));
            false
        },
    }
}

/// Whether a value may take the storage of another one.
pub fn value_can_alias(value: MidValueId, target: MidValueId, operations: &Vec<MidOperation>) -> (r:
    bool)
    ensures
        r == can_alias(operations@, value, target),
{
    proof {
        lemma_alias_search_is_complete(operations@, value, target);
    }
    leads(operations, value, target, operations.len())
}

/// Whether the value that a repeat yields may take the storage of the carried
/// value.
pub fn repeat_yield_can_alias(
    value: MidValueId,
    carried: MidValueId,
    operations: &Vec<MidOperation>,
) -> (r: bool)
    ensures
        r == yield_can_alias(operations@, value, carried),
{
    if value_can_alias(value, carried, operations) {
        return true;
    }
    match find_definition(operations, value) {
        None => false,
        Some(definition) => {
            let mut k: usize = definition;
            while k < operations.len()
                invariant
                    definition <= k <= operations@.len(),
                    forall|j: int|
                        definition <= j < k ==> !(#[trigger] operations@[j]).inputs@.contains(
                            carried,
                        ),
                decreases operations@.len() - k,
            {
                if reads(&operations[k], carried) {
                    return false;
                }
                k += 1;
            }
            true
        },
    }
}

/// Alignment and access tail that the operations require of a value.
pub fn body_storage_requirement(value: MidValueId, operations: &Vec<MidOperation>) -> (r: (u32, u32))
    ensures
        r == storage_requirement(operations@, value),
{
    let mut alignment: u32 = 8;
    let mut access_tail: u32 = 0;
    let mut k: usize = 0;
    while k < operations.len()
        invariant
            k <= operations@.len(),
            storage_requirement(operations@, value) == storage_requirement_from(
                operations@,
                value,
                k as int,
                (alignment, access_tail),
            ),
        decreases operations@.len() - k,
    {
        let operation = &operations[k];
        let ghost before = (alignment, access_tail);
        let mut i: usize = 0;
        while i < operation.inputs.len()
            invariant
                i <= operation.inputs@.len(),
                requirement_from(*operation, value, 0, before) == requirement_from(
                    *operation,
                    value,
                    i as int,
                    (alignment, access_tail),
                ),
            decreases operation.inputs@.len() - i,
        {
            if operation.inputs[i] == value {
                let conversion: Option<&OperandRequirement> = match &operation.conversion_plan {
                    Some(plan) => Some(&plan.input),
                    None => None,
                };
                let requirement: Option<&OperandRequirement> = match &operation.operator_plan {
                    Some(plan) => if i < plan.requirements.inputs.len() {
                        Some(&plan.requirements.inputs[i])
                    } else {
                        conversion
                    },
                    None => conversion,
                };
                match requirement {
                    Some(requirement) => {
                        alignment = max_u32(alignment, requirement.alignment);
                        access_tail = max_u32(access_tail, requirement.access_tail_bytes);
                    },
                    None => {},
                }
            }
            i += 1;
        }
        k += 1;
    }
    (alignment, access_tail)
}

impl LoweringState {
    /// Distance in bytes between consecutive blocks like the shard.
    pub fn shard_stride(&self, shard: LowShardId, alignment: u32, access_tail: u32) -> (r:
        LowLoweringResult<u32>)
        ensures
            match shard_of(self@.shards, shard) {
                Ok(model) => r == stride_of(model, alignment, access_tail),
                Err(e) => r == Err::<u32, LowLoweringError>(e),
            },
    {
        let shard = self.shard(shard)?;
        let elements: u64 = volume_of(&shard.extents, 0xffff_ffff_ffff_ffff)?;
        let width: u64 = shard.tensor_type.format.precision.bytes();
        let content: u64 = match elements.checked_mul(width) {
            Some(content) => content,
            None => {
                return Err(LowLoweringError::IdOverflow);
            },
        };
        let unit: u64 = max_u32(alignment, 1) as u64;
        let used: u64 = match content.checked_add(access_tail as u64) {
            Some(used) => used,
            None => {
                return Err(LowLoweringError::IdOverflow);
            },
        };
        let rounded: u64 = match used.checked_add(unit - 1) {
            Some(rounded) => rounded,
            None => {
                return Err(LowLoweringError::IdOverflow);
            },
        };
        assert(rounded / unit * unit <= rounded && 0 <= rounded / unit * unit)
            by (nonlinear_arith)
            requires
                unit >= 1,
        ;
        let stride: u64 = rounded / unit * unit;
        if stride > 0xffff_ffff {
            return Err(LowLoweringError::IdOverflow);
        }
        Ok(stride as u32)
    }
}

} // verus!
