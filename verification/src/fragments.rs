//! Choosing between exchanging logical fragments directly and packing them
//! after a staged exchange.

use crate::copies::spans_of;
use crate::low::{
    ExchangeOrder, LowLoweringError, LowLoweringResult, LowShardId, ShardModel, ShardView,
    ViewModel,
};
use crate::model::{deep, group_deep};
use crate::state::{has_padding, shard_of, LoweringState};
use crate::target::{Target, TargetCosts};
use crate::tensor::ByteSpan;
use vstd::prelude::*;

verus! {

pub open spec fn sat_add(a: u64, b: u64) -> u64 {
    if a + b > u64::MAX {
        u64::MAX
    } else {
        (a + b) as u64
    }
}

pub open spec fn sat_mul(a: u64, b: u64) -> u64 {
    if a * b > u64::MAX {
        u64::MAX
    } else {
        (a * b) as u64
    }
}

pub open spec fn div_ceil(a: int, b: int) -> int {
    if a % b == 0 {
        a / b
    } else {
        a / b + 1
    }
}

pub fn saturating_mul(a: u64, b: u64) -> (r: u64)
    ensures
        r == sat_mul(a, b),
{
    match a.checked_mul(b) {
        Some(product) => product,
        None => u64::MAX,
    }
}

pub fn div_ceil_u64(a: u64, b: u64) -> (r: u64)
    requires
        b > 0,
    ensures
        r == div_ceil(a as int, b as int),
{
    let quotient = a / b;
    if a % b == 0 {
        quotient
    } else {
        proof {
            vstd::arithmetic::div_mod::lemma_fundamental_div_mod(a as int, b as int);
            assert(quotient < u64::MAX) by (nonlinear_arith)
                requires
                    a == b * quotient + a % b,
                    a % b != 0,
                    0 <= a % b,
                    b > 0,
                    a <= u64::MAX,
            ;
        }
        quotient + 1
    }
}

pub fn div_ceil_u32(a: u32, b: u32) -> (r: u32)
    requires
        b > 0,
    ensures
        r == div_ceil(a as int, b as int),
{
    let quotient = a / b;
    if a % b == 0 {
        quotient
    } else {
        proof {
            vstd::arithmetic::div_mod::lemma_fundamental_div_mod(a as int, b as int);
            assert(quotient < u32::MAX) by (nonlinear_arith)
                requires
                    a == b * quotient + a % b,
                    a % b != 0,
                    0 <= a % b,
                    b > 0,
                    a <= u32::MAX,
            ;
        }
        quotient + 1
    }
}

/// Offset and length are whole words.
pub open spec fn word_aligned(span: ByteSpan) -> bool {
    span.offset % 4 == 0 && span.bytes % 4 == 0
}

pub open spec fn all_word_aligned(spans: Seq<ByteSpan>) -> bool {
    forall|i: int| 0 <= i < spans.len() ==> word_aligned(#[trigger] spans[i])
}

/// Bytes of the first `count` spans.
pub open spec fn total_bytes(spans: Seq<ByteSpan>, count: int) -> nat
    decreases count,
{
    if count <= 0 {
        0
    } else {
        total_bytes(spans, count - 1) + spans[count - 1].bytes as nat
    }
}

pub fn are_word_aligned(spans: &Vec<ByteSpan>) -> (r: bool)
    ensures
        r == all_word_aligned(spans@),
{
    let mut i: usize = 0;
    while i < spans.len()
        invariant
            i <= spans@.len(),
            forall|k: int| 0 <= k < i ==> word_aligned(#[trigger] spans@[k]),
        decreases spans@.len() - i,
    {
        if spans[i].offset % 4 != 0 || spans[i].bytes % 4 != 0 {
            assert(!word_aligned(spans@[i as int]));
            return false;
        }
        i += 1;
    }
    true
}

pub fn sum_bytes(spans: &Vec<ByteSpan>) -> (r: u128)
    ensures
        r == total_bytes(spans@, spans@.len() as int),
{
    let mut total: u128 = 0;
    let mut i: usize = 0;
    while i < spans.len()
        invariant
            i <= spans@.len(),
            total == total_bytes(spans@, i as int),
            total <= i * 0xffff_ffff,
        decreases spans@.len() - i,
    {
        total = total + spans[i].bytes as u128;
        i += 1;
    }
    total
}

/// Two views can be exchanged word by word: aligned, and of one size.
pub open spec fn words_match(a: Seq<ByteSpan>, b: Seq<ByteSpan>) -> bool {
    all_word_aligned(a) && all_word_aligned(b) && total_bytes(a, a.len() as int) == total_bytes(
        b,
        b.len() as int,
    )
}

/// The fragments of at most `limit` bytes that carry one span list over to the
/// other from the given positions on, added to `count`. None, where a fragment
/// is not a number of words or the lists do not end together.
pub open spec fn fragments_from(
    a: Seq<ByteSpan>,
    b: Seq<ByteSpan>,
    limit: int,
    i: int,
    i_done: int,
    j: int,
    j_done: int,
    count: u64,
) -> Option<u64>
    decreases a.len() - i, a[i].bytes - i_done,
{
    if i < a.len() && j < b.len() {
        let left = a[i].bytes - i_done;
        let right = b[j].bytes - j_done;
        let shorter = if left <= right {
            left
        } else {
            right
        };
        let bytes = if shorter <= limit {
            shorter
        } else {
            limit
        };
        if bytes <= 0 || bytes % 4 != 0 {
            None
        } else {
            fragments_from(
                a,
                b,
                limit,
                if bytes == left {
                    i + 1
                } else {
                    i
                },
                if bytes == left {
                    0
                } else {
                    i_done + bytes
                },
                if bytes == right {
                    j + 1
                } else {
                    j
                },
                if bytes == right {
                    0
                } else {
                    j_done + bytes
                },
                sat_add(count, 1),
            )
        }
    } else if i >= a.len() && j >= b.len() && i_done == 0 && j_done == 0 {
        Some(count)
    } else {
        None
    }
}

fn count_fragments(a: &Vec<ByteSpan>, b: &Vec<ByteSpan>, limit: u32, count: u64) -> (r: Option<u64>)
    ensures
        r == fragments_from(a@, b@, limit as int, 0, 0, 0, 0, count),
{
    let mut fragments = count;
    let mut i: usize = 0;
    let mut j: usize = 0;
    let mut i_done: u32 = 0;
    let mut j_done: u32 = 0;
    while i < a.len() && j < b.len()
        invariant
            i <= a@.len(),
            j <= b@.len(),
            i < a@.len() ==> i_done <= a@[i as int].bytes,
            j < b@.len() ==> j_done <= b@[j as int].bytes,
            fragments_from(a@, b@, limit as int, 0, 0, 0, 0, count) == fragments_from(
                a@,
                b@,
                limit as int,
                i as int,
                i_done as int,
                j as int,
                j_done as int,
                fragments,
            ),
        decreases a@.len() - i, a@[i as int].bytes - i_done,
    {
        let left: u32 = a[i].bytes - i_done;
        let right: u32 = b[j].bytes - j_done;
        let shorter: u32 = if left <= right {
            left
        } else {
            right
        };
        let bytes: u32 = if shorter <= limit {
            shorter
        } else {
            limit
        };
        if bytes == 0 || bytes % 4 != 0 {
            return None;
        }
        fragments = fragments.saturating_add(1);
        if bytes == left {
            i += 1;
            i_done = 0;
        } else {
            i_done = i_done + bytes;
        }
        if bytes == right {
            j += 1;
            j_done = 0;
        } else {
            j_done = j_done + bytes;
        }
    }
    if i < a.len() || j < b.len() || i_done != 0 || j_done != 0 {
        return None;
    }
    Some(fragments)
}

/// The fragments of the mappings from position `k` on, added to `count`.
pub open spec fn mapping_fragments_from<M: Target>(
    target: &M,
    shards: Seq<ShardModel>,
    mappings: Seq<(ViewModel, ViewModel)>,
    limit: int,
    k: int,
    count: u64,
) -> Result<Option<u64>, LowLoweringError>
    decreases mappings.len() - k,
{
    if k >= mappings.len() {
        Ok(Some(count))
    } else {
        match spans_of(target, shards, mappings[k].0, ExchangeOrder::Semantic) {
            Err(e) => Err(e),
            Ok(a) => match spans_of(target, shards, mappings[k].1, ExchangeOrder::Semantic) {
                Err(e) => Err(e),
                Ok(b) => if !words_match(a, b) {
                    Ok(None)
                } else {
                    match fragments_from(a, b, limit, 0, 0, 0, 0, count) {
                        None => Ok(None),
                        Some(more) => mapping_fragments_from(
                            target,
                            shards,
                            mappings,
                            limit,
                            k + 1,
                            more,
                        ),
                    }
                },
            },
        }
    }
}

/// The fragments of a word exchange that carries out the mappings, if one can.
pub open spec fn mapping_fragments<M: Target>(
    target: &M,
    shards: Seq<ShardModel>,
    mappings: Seq<(ViewModel, ViewModel)>,
) -> Result<Option<u64>, LowLoweringError> {
    if target.spec_costs().max_transfer_words * 4 > u32::MAX {
        Err(LowLoweringError::IdOverflow)
    } else {
        mapping_fragments_from(
            target,
            shards,
            mappings,
            target.spec_costs().max_transfer_words * 4,
            0,
            0,
        )
    }
}

/// Cycles of a direct word exchange of `fragments` fragments into a shard,
/// with the clearing of its padding.
pub open spec fn direct_cycles(
    costs: TargetCosts,
    fragments: u64,
    bytes: u32,
    padded: bool,
) -> u64 {
    sat_add(
        sat_mul(fragments, costs.logical_fragment_cycles),
        if padded {
            sat_add(costs.kernel_launch_cycles, div_ceil(bytes as int, 48) as u64)
        } else {
            0
        },
    )
}

/// Whether a word exchange of the mappings costs less than staging them and
/// packing the destination.
pub open spec fn benefits_from_word_exchange<M: Target>(
    target: &M,
    shards: Seq<ShardModel>,
    mappings: Seq<(ViewModel, ViewModel)>,
    destination: LowShardId,
) -> Result<bool, LowLoweringError> {
    match mapping_fragments(target, shards, mappings) {
        Err(e) => Err(e),
        Ok(None) => Ok(false),
        Ok(Some(fragments)) => match shard_of(shards, destination) {
            Err(e) => Err(e),
            Ok(shard) => match target.spec_storage_bytes(shard.tensor_type.format, shard.extents) {
                Err(e) => Err(LowLoweringError::Storage(e)),
                Ok(bytes) => Ok(
                    direct_cycles(
                        target.spec_costs(),
                        fragments,
                        bytes,
                        has_padding(shard.extents),
                    ) < target.spec_pack_cycles(
                        shard.tensor_type,
                        div_ceil(
                            bytes as int,
                            shard.tensor_type.format.precision.spec_bytes() as int,
                        ) as u64,
                    ),
                ),
            },
        },
    }
}

impl LoweringState {
    pub fn mapping_word_exchange_fragments<M: Target>(
        &self,
        target: &M,
        mappings: &Vec<(ShardView, ShardView)>,
    ) -> (r: LowLoweringResult<Option<u64>>)
        ensures
            r == mapping_fragments(target, self@.shards, deep(mappings@)),
    {
        broadcast use group_deep;

        let words = target.costs().max_transfer_words;
        if words as u64 * 4 > 0xffff_ffff {
            return Err(LowLoweringError::IdOverflow);
        }
        let limit: u32 = words * 4;
        let ghost model = deep(mappings@);
        let mut fragments: u64 = 0;
        let mut k: usize = 0;
        while k < mappings.len()
            invariant
                k <= mappings@.len(),
                mapping_fragments(target, self@.shards, model) == mapping_fragments_from(
                    target,
                    self@.shards,
                    model,
                    limit as int,
                    k as int,
                    fragments,
                ),
            decreases mappings@.len() - k,
        {
            let (source, destination) = &mappings[k];
            assert(model[k as int] == (source@, destination@));
            let a = self.spans_of(target, source, ExchangeOrder::Semantic)?;
            let b = self.spans_of(target, destination, ExchangeOrder::Semantic)?;
            if !are_word_aligned(&a) || !are_word_aligned(&b) || sum_bytes(&a) != sum_bytes(&b) {
                return Ok(None);
            }
            match count_fragments(&a, &b, limit, fragments) {
                None => {
                    return Ok(None);
                },
                Some(more) => {
                    fragments = more;
                },
            }
            k += 1;
        }
        Ok(Some(fragments))
    }

    pub fn mappings_benefit_from_word_exchange<M: Target>(
        &self,
        target: &M,
        mappings: &Vec<(ShardView, ShardView)>,
        destination: LowShardId,
    ) -> (r: LowLoweringResult<bool>)
        ensures
            r == benefits_from_word_exchange(target, self@.shards, deep(mappings@), destination),
    {
        let fragments = match self.mapping_word_exchange_fragments(target, mappings) {
            Ok(Some(fragments)) => fragments,
            Ok(None) => {
                return Ok(false);
            },
            Err(e) => {
                return Err(e);
            },
        };
        let shard = self.shard(destination)?;
        let bytes: u32 = match target.storage_bytes(
            &shard.tensor_type.format,
            shard.extents.as_slice(),
        ) {
            Ok(bytes) => bytes,
            Err(e) => {
                return Err(LowLoweringError::Storage(e));
            },
        };
        let elements: u64 = div_ceil_u64(
            bytes as u64,
            shard.tensor_type.format.precision.bytes(),
        );
        let packed = target.row_major_pack_cycles(&shard.tensor_type, elements);
        let padded = self.shard_has_padding(destination)?;
        let costs = target.costs();
        let clear: u64 = if padded {
            costs.kernel_launch_cycles.saturating_add(div_ceil_u64(bytes as u64, 48))
        } else {
            0
        };
        let direct: u64 = saturating_mul(
            fragments,
            costs.logical_fragment_cycles,
        ).saturating_add(clear);
        Ok(direct < packed)
    }
}

} // verus!
