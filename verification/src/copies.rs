//! Byte copies inside a tile: pairing the byte spans of two views, and joining
//! regular sequences of copies.

use crate::low::{
    ExchangeOrder, LocalCopy, LocalCopyPattern, LowLoweringError, LowLoweringResult, LowShard, LowShardId,
    ShardModel, ShardView, ViewModel,
};
use crate::state::{shard_of, LoweringState};
use crate::target::{spans_are, Target};
use crate::tensor::{ByteSpan, StorageError};
use vstd::prelude::*;

verus! {

// ---------------------------------------------------------------- spans

/// Bytes that a shard occupies.
pub fn shard_storage_bytes<M: Target>(target: &M, shard: &LowShard) -> (r: Result<
    u32,
    StorageError,
>)
    ensures
        r == target.spec_storage_bytes(shard@.tensor_type.format, shard@.extents),
{
    target.storage_bytes(&shard.tensor_type.format, shard.extents.as_slice())
}

/// The bytes of a view in address order.
pub open spec fn physical_spans<M: Target>(target: &M, shard: ShardModel, view: ViewModel) -> Result<
    Seq<ByteSpan>,
    StorageError,
> {
    if view.shard != shard.id {
        Err(StorageError::WrongShard)
    } else {
        target.spec_physical_spans(shard.tensor_type.format, shard.extents, view.extents)
    }
}

/// The useful bytes of a view in coordinate order.
pub open spec fn logical_spans<M: Target>(target: &M, shard: ShardModel, view: ViewModel) -> Result<
    Seq<ByteSpan>,
    StorageError,
> {
    if view.shard != shard.id {
        Err(StorageError::WrongShard)
    } else {
        target.spec_logical_spans(shard.tensor_type.format, shard.extents, view.extents)
    }
}

pub fn view_byte_spans<M: Target>(target: &M, shard: &LowShard, view: &ShardView) -> (r: Result<
    Vec<ByteSpan>,
    StorageError,
>)
    ensures
        spans_are(r, physical_spans(target, shard@, view@)),
{
    if view.shard != shard.id {
        return Err(StorageError::WrongShard);
    }
    target.physical_byte_spans(
        &shard.tensor_type.format,
        shard.extents.as_slice(),
        view.extents.as_slice(),
    )
}

pub fn logical_view_byte_spans<M: Target>(target: &M, shard: &LowShard, view: &ShardView) -> (r:
    Result<Vec<ByteSpan>, StorageError>)
    ensures
        spans_are(r, logical_spans(target, shard@, view@)),
{
    if view.shard != shard.id {
        return Err(StorageError::WrongShard);
    }
    target.logical_byte_spans(
        &shard.tensor_type.format,
        shard.extents.as_slice(),
        view.extents.as_slice(),
    )
}

// ---------------------------------------------------------------- bytes moved

/// The bytes of one span.
pub open spec fn span_bytes(span: ByteSpan) -> Seq<int> {
    Seq::new(span.bytes as nat, |k: int| span.offset + k)
}

/// The bytes of the first `count` spans, in order.
pub open spec fn spans_bytes(spans: Seq<ByteSpan>, count: int) -> Seq<int>
    decreases count,
{
    if count <= 0 {
        Seq::empty()
    } else {
        spans_bytes(spans, count - 1) + span_bytes(spans[count - 1])
    }
}

/// A run of bytes that moves as one: where each byte comes from and goes to.
pub open spec fn row_moves(source: int, destination: int, bytes: int) -> Seq<(int, int)> {
    Seq::new(bytes as nat, |k: int| (source + k, destination + k))
}

/// The first `rows` rows of a strided copy.
pub open spec fn strided_moves(
    source: int,
    destination: int,
    rows: int,
    row_bytes: int,
    source_stride: int,
    destination_stride: int,
) -> Seq<(int, int)>
    decreases rows,
{
    if rows <= 0 {
        Seq::empty()
    } else {
        strided_moves(
            source,
            destination,
            rows - 1,
            row_bytes,
            source_stride,
            destination_stride,
        ) + row_moves(
            source + (rows - 1) * source_stride,
            destination + (rows - 1) * destination_stride,
            row_bytes,
        )
    }
}

/// The bytes that a copy moves, in order.
pub open spec fn moves(copy: LocalCopy) -> Seq<(int, int)> {
    match copy.pattern {
        LocalCopyPattern::Contiguous => row_moves(
            copy.source_offset as int,
            copy.destination_offset as int,
            copy.bytes as int,
        ),
        LocalCopyPattern::Strided { rows, row_bytes, source_stride, destination_stride } =>
            strided_moves(
            copy.source_offset as int,
            copy.destination_offset as int,
            rows as int,
            row_bytes as int,
            source_stride as int,
            destination_stride as int,
        ),
    }
}

/// The bytes that the first `count` copies move, in order.
pub open spec fn all_moves(copies: Seq<LocalCopy>, count: int) -> Seq<(int, int)>
    decreases count,
{
    if count <= 0 {
        Seq::empty()
    } else {
        all_moves(copies, count - 1) + moves(copies[count - 1])
    }
}

// ---------------------------------------------------------------- pairing

/// The copies that pair two span lists byte by byte, from the given positions
/// on, after `done`. The span lists must end together.
pub open spec fn pair_from(
    source: LowShardId,
    destination: LowShardId,
    a: Seq<ByteSpan>,
    b: Seq<ByteSpan>,
    i: int,
    i_done: int,
    j: int,
    j_done: int,
    done: Seq<LocalCopy>,
) -> Result<Seq<LocalCopy>, LowLoweringError>
    decreases (a.len() - i) + (b.len() - j),
{
    if i < a.len() && j < b.len() {
        let bytes = if a[i].bytes - i_done <= b[j].bytes - j_done {
            a[i].bytes - i_done
        } else {
            b[j].bytes - j_done
        };
        if a[i].offset + i_done > u32::MAX || b[j].offset + j_done > u32::MAX {
            Err(LowLoweringError::Storage(StorageError::Overflow))
        } else {
            let copy = LocalCopy {
                source,
                source_offset: (a[i].offset + i_done) as u32,
                destination,
                destination_offset: (b[j].offset + j_done) as u32,
                bytes: bytes as u32,
                pattern: LocalCopyPattern::Contiguous,
            };
            let a_ends = a[i].bytes - i_done <= b[j].bytes - j_done;
            let b_ends = b[j].bytes - j_done <= a[i].bytes - i_done;
            pair_from(
                source,
                destination,
                a,
                b,
                if a_ends {
                    i + 1
                } else {
                    i
                },
                if a_ends {
                    0
                } else {
                    i_done + bytes
                },
                if b_ends {
                    j + 1
                } else {
                    j
                },
                if b_ends {
                    0
                } else {
                    j_done + bytes
                },
                done.push(copy),
            )
        }
    } else if i >= a.len() && j >= b.len() {
        Ok(done)
    } else {
        Err(LowLoweringError::InvalidConversionPlan)
    }
}

/// The copies that pair two span lists byte by byte.
pub open spec fn paired(
    source: LowShardId,
    destination: LowShardId,
    a: Seq<ByteSpan>,
    b: Seq<ByteSpan>,
) -> Result<Seq<LocalCopy>, LowLoweringError> {
    pair_from(source, destination, a, b, 0, 0, 0, 0, Seq::empty())
}

/// Pairs two lists of bytes into copies.
pub fn pair_spans(
    source: LowShardId,
    destination: LowShardId,
    a: &Vec<ByteSpan>,
    b: &Vec<ByteSpan>,
) -> (r: LowLoweringResult<Vec<LocalCopy>>)
    ensures
        match r {
            Ok(copies) => paired(source, destination, a@, b@) == Ok::<
                Seq<LocalCopy>,
                LowLoweringError,
            >(copies@),
            Err(e) => paired(source, destination, a@, b@) == Err::<
                Seq<LocalCopy>,
                LowLoweringError,
            >(e),
        },
{
    let mut copies: Vec<LocalCopy> = Vec::new();
    let mut i: usize = 0;
    let mut j: usize = 0;
    let mut i_done: u32 = 0;
    let mut j_done: u32 = 0;
    while i < a.len() && j < b.len()
        invariant
            i <= a@.len(),
            j <= b@.len(),
            i < a@.len() ==> i_done <= a@[i as int].bytes,
            j < b@.len() ==> j_done <= b@[j as int].bytes,
            paired(source, destination, a@, b@) == pair_from(
                source,
                destination,
                a@,
                b@,
                i as int,
                i_done as int,
                j as int,
                j_done as int,
                copies@,
            ),
        decreases (a@.len() - i) + (b@.len() - j),
    {
        let from: ByteSpan = a[i];
        let to: ByteSpan = b[j];
        let left: u32 = from.bytes - i_done;
        let right: u32 = to.bytes - j_done;
        let bytes: u32 = if left <= right {
            left
        } else {
            right
        };
        let (source_offset, destination_offset) = match (
            from.offset.checked_add(i_done),
            to.offset.checked_add(j_done),
        ) {
            (Some(x), Some(y)) => (x, y),
            _ => {
                return Err(LowLoweringError::Storage(StorageError::Overflow));
            },
        };
        copies.push(
            LocalCopy {
                source,
                source_offset,
                destination,
                destination_offset,
                bytes,
                pattern: LocalCopyPattern::Contiguous,
            },
        );
        if left <= right {
            i += 1;
            i_done = 0;
        } else {
            i_done = i_done + bytes;
        }
        if right <= left {
            j += 1;
            j_done = 0;
        } else {
            j_done = j_done + bytes;
        }
    }
    if i < a.len() || j < b.len() {
        return Err(LowLoweringError::InvalidConversionPlan);
    }
    Ok(copies)
}

/// The part of the zipped span bytes that lies before the given positions.
pub open spec fn paired_prefix(
    a: Seq<ByteSpan>,
    b: Seq<ByteSpan>,
    i: int,
    i_done: int,
    j: int,
    j_done: int,
    done: Seq<LocalCopy>,
) -> bool {
    let from = spans_bytes(a, i) + (if i < a.len() {
        span_bytes(a[i]).take(i_done)
    } else {
        Seq::empty()
    });
    let to = spans_bytes(b, j) + (if j < b.len() {
        span_bytes(b[j]).take(j_done)
    } else {
        Seq::empty()
    });
    &&& from.len() == to.len()
    &&& all_moves(done, done.len() as int) == Seq::new(from.len(), |k: int| (from[k], to[k]))
}

proof fn lemma_all_moves_push(copies: Seq<LocalCopy>, copy: LocalCopy)
    ensures
        all_moves(copies.push(copy), copies.len() as int + 1) == all_moves(copies, copies.len() as int)
            + moves(copy),
{
    lemma_all_moves_prefix(copies.push(copy), copies, copies.len() as int);
}

proof fn lemma_all_moves_prefix(a: Seq<LocalCopy>, b: Seq<LocalCopy>, count: int)
    requires
        count <= a.len(),
        count <= b.len(),
        forall|k: int| 0 <= k < count ==> a[k] == b[k],
    ensures
        all_moves(a, count) == all_moves(b, count),
    decreases count,
{
    if count > 0 {
        lemma_all_moves_prefix(a, b, count - 1);
    }
}

proof fn lemma_pair_from_moves(
    source: LowShardId,
    destination: LowShardId,
    a: Seq<ByteSpan>,
    b: Seq<ByteSpan>,
    i: int,
    i_done: int,
    j: int,
    j_done: int,
    done: Seq<LocalCopy>,
)
    requires
        0 <= i <= a.len(),
        0 <= j <= b.len(),
        i < a.len() ==> 0 <= i_done <= a[i].bytes,
        j < b.len() ==> 0 <= j_done <= b[j].bytes,
        paired_prefix(a, b, i, i_done, j, j_done, done),
        pair_from(source, destination, a, b, i, i_done, j, j_done, done) is Ok,
    ensures
        ({
            let copies = pair_from(
                source,
                destination,
                a,
                b,
                i,
                i_done,
                j,
                j_done,
                done,
            )->Ok_0;
            let from = spans_bytes(a, a.len() as int);
            let to = spans_bytes(b, b.len() as int);
            &&& from.len() == to.len()
            &&& all_moves(copies, copies.len() as int) == Seq::new(
                from.len(),
                |k: int| (from[k], to[k]),
            )
        }),
    decreases (a.len() - i) + (b.len() - j),
{
    if i < a.len() && j < b.len() {
        let bytes = if a[i].bytes - i_done <= b[j].bytes - j_done {
            a[i].bytes - i_done
        } else {
            b[j].bytes - j_done
        };
        let copy = LocalCopy {
            source,
            source_offset: (a[i].offset + i_done) as u32,
            destination,
            destination_offset: (b[j].offset + j_done) as u32,
            bytes: bytes as u32,
            pattern: LocalCopyPattern::Contiguous,
        };
        let a_ends = a[i].bytes - i_done <= b[j].bytes - j_done;
        let b_ends = b[j].bytes - j_done <= a[i].bytes - i_done;
        let i2 = if a_ends {
            i + 1
        } else {
            i
        };
        let i2_done = if a_ends {
            0
        } else {
            i_done + bytes
        };
        let j2 = if b_ends {
            j + 1
        } else {
            j
        };
        let j2_done = if b_ends {
            0
        } else {
            j_done + bytes
        };
        let next = done.push(copy);
        lemma_all_moves_push(done, copy);
        let from = spans_bytes(a, i) + span_bytes(a[i]).take(i_done);
        let to = spans_bytes(b, j) + span_bytes(b[j]).take(j_done);
        let from2 = spans_bytes(a, i2) + (if i2 < a.len() {
            span_bytes(a[i2]).take(i2_done)
        } else {
            Seq::empty()
        });
        let to2 = spans_bytes(b, j2) + (if j2 < b.len() {
            span_bytes(b[j2]).take(j2_done)
        } else {
            Seq::empty()
        });
        let piece_a = Seq::new(bytes as nat, |k: int| a[i].offset + i_done + k);
        let piece_b = Seq::new(bytes as nat, |k: int| b[j].offset + j_done + k);
        assert(from2 =~= from + piece_a);
        assert(to2 =~= to + piece_b);
        assert(moves(copy) =~= Seq::new(bytes as nat, |k: int| (piece_a[k], piece_b[k])));
        assert(all_moves(next, next.len() as int) =~= Seq::new(
            from2.len(),
            |k: int| (from2[k], to2[k]),
        ));
        lemma_pair_from_moves(source, destination, a, b, i2, i2_done, j2, j2_done, next);
    } else {
        assert(spans_bytes(a, i) + Seq::<int>::empty() =~= spans_bytes(a, i));
        assert(spans_bytes(b, j) + Seq::<int>::empty() =~= spans_bytes(b, j));
    }
}

/// Pairing moves the n-th byte of the source spans to the n-th byte of the
/// destination spans, for every n, in order.
pub proof fn lemma_pairing_moves_every_byte(
    source: LowShardId,
    destination: LowShardId,
    a: Seq<ByteSpan>,
    b: Seq<ByteSpan>,
)
    requires
        paired(source, destination, a, b) is Ok,
    ensures
        ({
            let copies = paired(source, destination, a, b)->Ok_0;
            let from = spans_bytes(a, a.len() as int);
            let to = spans_bytes(b, b.len() as int);
            &&& from.len() == to.len()
            &&& all_moves(copies, copies.len() as int) == Seq::new(
                from.len(),
                |k: int| (from[k], to[k]),
            )
        }),
{
    let from = spans_bytes(a, 0) + (if 0 < a.len() {
        span_bytes(a[0]).take(0)
    } else {
        Seq::empty()
    });
    let to = spans_bytes(b, 0) + (if 0 < b.len() {
        span_bytes(b[0]).take(0)
    } else {
        Seq::empty()
    });
    assert(from.len() == 0 && to.len() == 0);
    assert(all_moves(Seq::empty(), 0) =~= Seq::new(from.len(), |k: int| (from[k], to[k])));
    lemma_pair_from_moves(source, destination, a, b, 0, 0, 0, 0, Seq::empty());
}

// ---------------------------------------------------------------- joining

/// Strided copies up to this size are spread over workers. Larger ones stay
/// contiguous rows: spreading them loses more to bank contention than it saves
/// in call overhead.
pub const PARALLEL_STRIDED_COPY_MAX_BYTES: u32 = 512;

/// The distance from `a` to `b`, if `b` does not come first.
pub open spec fn stride(a: u32, b: u32) -> int {
    if b >= a {
        b - a
    } else {
        0
    }
}

/// The copies at `index` and after it start a regular sequence.
pub open spec fn starts_sequence(copies: Seq<LocalCopy>, index: int) -> bool {
    let first = copies[index];
    let second = copies[index + 1];
    &&& index + 1 < copies.len()
    &&& first.source == second.source
    &&& first.destination == second.destination
    &&& first.bytes == second.bytes
    &&& first.bytes != 0
    &&& first.bytes % 8 == 0
    &&& stride(first.source_offset, second.source_offset) > 0
    &&& stride(first.destination_offset, second.destination_offset) > 0
}

/// The copy at `at` continues the sequence that starts at `index`.
pub open spec fn continues_sequence(copies: Seq<LocalCopy>, index: int, at: int) -> bool {
    let first = copies[index];
    let second = copies[index + 1];
    let previous = copies[at - 1];
    let copy = copies[at];
    &&& copy.source == first.source
    &&& copy.destination == first.destination
    &&& copy.bytes == first.bytes
    &&& copy.source_offset - previous.source_offset == stride(
        first.source_offset,
        second.source_offset,
    )
    &&& copy.destination_offset - previous.destination_offset == stride(
        first.destination_offset,
        second.destination_offset,
    )
}

/// Where the sequence that starts at `index` ends, looking from `end` on.
pub open spec fn sequence_end(copies: Seq<LocalCopy>, index: int, end: int) -> int
    decreases copies.len() - end,
{
    if end < copies.len() && continues_sequence(copies, index, end) {
        sequence_end(copies, index, end + 1)
    } else {
        end
    }
}

/// What replaces the regular sequence `index..end`.
pub open spec fn joined_sequence(copies: Seq<LocalCopy>, index: int, end: int) -> Seq<LocalCopy> {
    let first = copies[index];
    let second = copies[index + 1];
    let rows = end - index;
    let source_stride = stride(first.source_offset, second.source_offset);
    let destination_stride = stride(first.destination_offset, second.destination_offset);
    if first.bytes * rows > PARALLEL_STRIDED_COPY_MAX_BYTES {
        copies.subrange(index, end)
    } else if source_stride == first.bytes && destination_stride == first.bytes {
        seq![LocalCopy { bytes: (first.bytes * rows) as u32, ..first }]
    } else {
        seq![
            LocalCopy {
                bytes: (first.bytes * rows) as u32,
                pattern: LocalCopyPattern::Strided {
                    rows: rows as u32,
                    row_bytes: first.bytes,
                    source_stride: source_stride as u32,
                    destination_stride: destination_stride as u32,
                },
                ..first
            },
        ]
    }
}

/// `done` followed by the copies from `index` on, with regular sequences joined.
pub open spec fn coalesce_from(
    copies: Seq<LocalCopy>,
    index: int,
    done: Seq<LocalCopy>,
) -> Seq<LocalCopy>
    decreases copies.len() - index,
{
    if index >= copies.len() {
        done
    } else if !starts_sequence(copies, index) {
        coalesce_from(copies, index + 1, done.push(copies[index]))
    } else {
        let end = sequence_end(copies, index, index + 2);
        if end <= index || end > copies.len() {
            done
        } else {
            coalesce_from(copies, end, done + joined_sequence(copies, index, end))
        }
    }
}

/// The copies with regular sequences joined.
pub open spec fn coalesced(copies: Seq<LocalCopy>) -> Seq<LocalCopy> {
    coalesce_from(copies, 0, Seq::empty())
}

proof fn lemma_sequence_end(copies: Seq<LocalCopy>, index: int, end: int)
    requires
        end <= copies.len(),
    ensures
        end <= sequence_end(copies, index, end) <= copies.len(),
        forall|k: int|
            end <= k < sequence_end(copies, index, end) ==> #[trigger] continues_sequence(
                copies,
                index,
                k,
            ),
    decreases copies.len() - end,
{
    if end < copies.len() && continues_sequence(copies, index, end) {
        lemma_sequence_end(copies, index, end + 1);
    }
}

fn continues_regularly(copies: &Vec<LocalCopy>, index: usize, at: usize) -> (r: bool)
    requires
        index + 1 < at < copies@.len(),
    ensures
        r == continues_sequence(copies@, index as int, at as int),
{
    let first = copies[index];
    let second = copies[index + 1];
    let previous = copies[at - 1];
    let copy = copies[at];
    copy.source == first.source && copy.destination == first.destination && copy.bytes
        == first.bytes && copy.source_offset >= previous.source_offset && copy.source_offset
        - previous.source_offset == second.source_offset.saturating_sub(first.source_offset)
        && copy.destination_offset >= previous.destination_offset && copy.destination_offset
        - previous.destination_offset == second.destination_offset.saturating_sub(
        first.destination_offset,
    )
}

/// Joins regular sequences of short copies into strided or longer ones.
pub fn coalesce_local_copies(copies: Vec<LocalCopy>) -> (r: Vec<LocalCopy>)
    ensures
        r@ == coalesced(copies@),
{
    let mut done: Vec<LocalCopy> = Vec::new();
    let mut index: usize = 0;
    while index < copies.len()
        invariant
            index <= copies@.len(),
            coalesced(copies@) == coalesce_from(copies@, index as int, done@),
        decreases copies@.len() - index,
    {
        let first = copies[index];
        if index + 1 >= copies.len() {
            done.push(first);
            index += 1;
            continue;
        }
        let second = copies[index + 1];
        let source_stride: u32 = second.source_offset.saturating_sub(first.source_offset);
        let destination_stride: u32 = second.destination_offset.saturating_sub(
            first.destination_offset,
        );
        if first.source != second.source || first.destination != second.destination || first.bytes
            != second.bytes || first.bytes == 0 || first.bytes % 8 != 0 || source_stride == 0
            || destination_stride == 0 {
            done.push(first);
            index += 1;
            continue;
        }
        assert(starts_sequence(copies@, index as int));
        let mut end: usize = index + 2;
        while end < copies.len() && continues_regularly(&copies, index, end)
            invariant
                index + 2 <= end <= copies@.len(),
                sequence_end(copies@, index as int, index + 2) == sequence_end(
                    copies@,
                    index as int,
                    end as int,
                ),
            decreases copies@.len() - end,
        {
            end += 1;
        }
        assert(sequence_end(copies@, index as int, index + 2) == end);
        let rows: u64 = (end - index) as u64;
        proof {
            if rows <= 512 {
                assert(first.bytes * rows <= 0xffff_ffff * 512) by (nonlinear_arith)
                    requires
                        rows <= 512,
                        first.bytes <= 0xffff_ffff,
                ;
            }
            if rows > 512 {
                assert(first.bytes * rows > 512) by (nonlinear_arith)
                    requires
                        rows > 512,
                        first.bytes >= 1,
                ;
            }
        }
        let fits = rows <= PARALLEL_STRIDED_COPY_MAX_BYTES as u64 && first.bytes as u64 * rows
            <= PARALLEL_STRIDED_COPY_MAX_BYTES as u64;
        assert(fits == !(first.bytes * rows > PARALLEL_STRIDED_COPY_MAX_BYTES));
        let ghost before = done@;
        if !fits {
            let mut k: usize = index;
            while k < end
                invariant
                    index <= k <= end <= copies@.len(),
                    done@ == before + copies@.subrange(index as int, k as int),
                decreases end - k,
            {
                done.push(copies[k]);
                k += 1;
                assert(done@ =~= before + copies@.subrange(index as int, k as int));
            }
        } else {
            let bytes: u32 = (first.bytes as u64 * rows) as u32;
            let pattern = if source_stride == first.bytes && destination_stride == first.bytes {
                first.pattern
            } else {
                LocalCopyPattern::Strided {
                    rows: rows as u32,
                    row_bytes: first.bytes,
                    source_stride,
                    destination_stride,
                }
            };
            done.push(
                LocalCopy {
                    source: first.source,
                    source_offset: first.source_offset,
                    destination: first.destination,
                    destination_offset: first.destination_offset,
                    bytes,
                    pattern,
                },
            );
            assert(done@ =~= before + joined_sequence(copies@, index as int, end as int));
        }
        index = end;
    }
    done
}

proof fn lemma_all_moves_concat(a: Seq<LocalCopy>, b: Seq<LocalCopy>, count: int)
    requires
        0 <= count <= b.len(),
    ensures
        all_moves(a + b, a.len() + count) == all_moves(a, a.len() as int) + all_moves(b, count),
    decreases count,
{
    if count > 0 {
        lemma_all_moves_concat(a, b, count - 1);
        assert((a + b)[a.len() + count - 1] == b[count - 1]);
        assert(all_moves(a, a.len() as int) + (all_moves(b, count - 1) + moves(b[count - 1])) =~= (
        all_moves(a, a.len() as int) + all_moves(b, count - 1)) + moves(b[count - 1]));
    } else {
        lemma_all_moves_prefix(a + b, a, a.len() as int);
        assert(all_moves(a, a.len() as int) + all_moves(b, 0) =~= all_moves(a, a.len() as int));
    }
}

/// Every copy moves one contiguous run of bytes.
pub open spec fn all_contiguous(copies: Seq<LocalCopy>) -> bool {
    forall|i: int|
        0 <= i < copies.len() ==> (#[trigger] copies[i]).pattern == LocalCopyPattern::Contiguous
}

/// A regular sequence of copies is an arithmetic progression.
proof fn lemma_sequence_offsets(copies: Seq<LocalCopy>, index: int, end: int, k: int)
    requires
        0 <= index,
        starts_sequence(copies, index),
        index + 2 <= end <= copies.len(),
        forall|m: int| index + 2 <= m < end ==> #[trigger] continues_sequence(copies, index, m),
        index <= k < end,
    ensures
        ({
            let first = copies[index];
            let second = copies[index + 1];
            &&& copies[k].source_offset == first.source_offset + (k - index) * stride(
                first.source_offset,
                second.source_offset,
            )
            &&& copies[k].destination_offset == first.destination_offset + (k - index) * stride(
                first.destination_offset,
                second.destination_offset,
            )
            &&& copies[k].bytes == first.bytes
        }),
    decreases k,
{
    let first = copies[index];
    let second = copies[index + 1];
    let s = stride(first.source_offset, second.source_offset);
    let d = stride(first.destination_offset, second.destination_offset);
    if k == index {
        assert((k - index) * s == 0) by (nonlinear_arith)
            requires
                k == index,
        ;
        assert((k - index) * d == 0) by (nonlinear_arith)
            requires
                k == index,
        ;
    } else if k == index + 1 {
        assert((k - index) * s == s) by (nonlinear_arith)
            requires
                k == index + 1,
        ;
        assert((k - index) * d == d) by (nonlinear_arith)
            requires
                k == index + 1,
        ;
    } else {
        lemma_sequence_offsets(copies, index, end, k - 1);
        assert(continues_sequence(copies, index, k));
        assert((k - index) * s == (k - 1 - index) * s + s) by (nonlinear_arith);
        assert((k - index) * d == (k - 1 - index) * d + d) by (nonlinear_arith);
    }
}

/// The rows of a regular sequence, one after the other, are a strided copy.
proof fn lemma_sequence_moves(copies: Seq<LocalCopy>, index: int, end: int, rows: int)
    requires
        0 <= index,
        all_contiguous(copies),
        starts_sequence(copies, index),
        index + 2 <= end <= copies.len(),
        forall|m: int| index + 2 <= m < end ==> #[trigger] continues_sequence(copies, index, m),
        0 <= rows <= end - index,
    ensures
        ({
            let first = copies[index];
            let second = copies[index + 1];
            all_moves(copies.subrange(index, end), rows) == strided_moves(
                first.source_offset as int,
                first.destination_offset as int,
                rows,
                first.bytes as int,
                stride(first.source_offset, second.source_offset),
                stride(first.destination_offset, second.destination_offset),
            )
        }),
    decreases rows,
{
    if rows > 0 {
        lemma_sequence_moves(copies, index, end, rows - 1);
        lemma_sequence_offsets(copies, index, end, index + rows - 1);
        assert(copies.subrange(index, end)[rows - 1] == copies[index + rows - 1]);
        assert(copies[index + rows - 1].pattern == LocalCopyPattern::Contiguous);
    }
}

/// Rows without gaps between them are one contiguous run.
proof fn lemma_dense_moves(source: int, destination: int, rows: int, row_bytes: int)
    requires
        0 <= rows,
        0 <= row_bytes,
    ensures
        strided_moves(source, destination, rows, row_bytes, row_bytes, row_bytes) == row_moves(
            source,
            destination,
            rows * row_bytes,
        ),
    decreases rows,
{
    if rows > 0 {
        lemma_dense_moves(source, destination, rows - 1, row_bytes);
        assert(rows * row_bytes == (rows - 1) * row_bytes + row_bytes) by (nonlinear_arith);
        assert(0 <= (rows - 1) * row_bytes) by (nonlinear_arith)
            requires
                rows >= 1,
                row_bytes >= 0,
        ;
    } else {
        assert(rows * row_bytes == 0) by (nonlinear_arith)
            requires
                rows == 0,
        ;
    }
    assert(strided_moves(source, destination, rows, row_bytes, row_bytes, row_bytes) =~= row_moves(
        source,
        destination,
        rows * row_bytes,
    ));
}

proof fn lemma_joined_moves(copies: Seq<LocalCopy>, index: int, end: int)
    requires
        0 <= index,
        all_contiguous(copies),
        starts_sequence(copies, index),
        index + 2 <= end <= copies.len(),
        forall|m: int| index + 2 <= m < end ==> #[trigger] continues_sequence(copies, index, m),
    ensures
        ({
            let joined = joined_sequence(copies, index, end);
            all_moves(joined, joined.len() as int) == all_moves(
                copies.subrange(index, end),
                end - index,
            )
        }),
{
    let first = copies[index];
    let second = copies[index + 1];
    let rows = end - index;
    let joined = joined_sequence(copies, index, end);
    if first.bytes * rows <= PARALLEL_STRIDED_COPY_MAX_BYTES {
        assert(rows <= 512) by (nonlinear_arith)
            requires
                first.bytes * rows <= 512,
                first.bytes >= 1,
        ;
        assert(0 <= first.bytes * rows) by (nonlinear_arith)
            requires
                rows >= 0,
        ;
        lemma_sequence_moves(copies, index, end, rows);
        assert(joined.len() == 1);
        reveal_with_fuel(all_moves, 2);
        assert(all_moves(joined, 1) =~= moves(joined[0]));
        assert(first.pattern == LocalCopyPattern::Contiguous);
        if stride(first.source_offset, second.source_offset) == first.bytes && stride(
            first.destination_offset,
            second.destination_offset,
        ) == first.bytes {
            lemma_dense_moves(
                first.source_offset as int,
                first.destination_offset as int,
                rows,
                first.bytes as int,
            );
            assert(rows * first.bytes == first.bytes * rows) by (nonlinear_arith);
        }
    }
}

proof fn lemma_coalesce_from_moves(copies: Seq<LocalCopy>, index: int, done: Seq<LocalCopy>)
    requires
        0 <= index <= copies.len(),
        all_contiguous(copies),
        all_moves(done, done.len() as int) == all_moves(copies, index),
    ensures
        ({
            let joined = coalesce_from(copies, index, done);
            all_moves(joined, joined.len() as int) == all_moves(copies, copies.len() as int)
        }),
    decreases copies.len() - index,
{
    if index < copies.len() {
        if !starts_sequence(copies, index) {
            lemma_all_moves_push(done, copies[index]);
            lemma_coalesce_from_moves(copies, index + 1, done.push(copies[index]));
        } else {
            let end = sequence_end(copies, index, index + 2);
            lemma_sequence_end(copies, index, index + 2);
            lemma_joined_moves(copies, index, end);
            let joined = joined_sequence(copies, index, end);
            lemma_all_moves_concat(done, joined, joined.len() as int);
            let head = copies.take(index);
            let middle = copies.subrange(index, end);
            lemma_all_moves_concat(head, middle, end - index);
            lemma_all_moves_prefix(head + middle, copies, end);
            lemma_all_moves_prefix(head, copies, index);
            lemma_coalesce_from_moves(copies, end, done + joined);
        }
    }
}

/// A byte of a shard.
pub struct Byte {
    pub shard: LowShardId,
    pub offset: int,
}

/// Moves between two shards.
pub open spec fn between_shards(
    moves: Seq<(int, int)>,
    source: LowShardId,
    destination: LowShardId,
) -> Seq<(Byte, Byte)> {
    Seq::new(
        moves.len(),
        |i: int|
            (
                Byte { shard: source, offset: moves[i].0 },
                Byte { shard: destination, offset: moves[i].1 },
            ),
    )
}

/// Which byte of which shard goes where, in order, by the first `count` copies.
pub open spec fn all_byte_moves(copies: Seq<LocalCopy>, count: int) -> Seq<(Byte, Byte)>
    decreases count,
{
    if count <= 0 {
        Seq::empty()
    } else {
        let copy = copies[count - 1];
        all_byte_moves(copies, count - 1) + between_shards(
            moves(copy),
            copy.source,
            copy.destination,
        )
    }
}

/// All copies are between the same two shards.
pub open spec fn all_between(
    copies: Seq<LocalCopy>,
    source: LowShardId,
    destination: LowShardId,
) -> bool {
    forall|i: int|
        0 <= i < copies.len() ==> (#[trigger] copies[i]).source == source && copies[i].destination
            == destination
}

proof fn lemma_byte_moves_between(
    copies: Seq<LocalCopy>,
    source: LowShardId,
    destination: LowShardId,
    count: int,
)
    requires
        all_between(copies, source, destination),
        0 <= count <= copies.len(),
    ensures
        all_byte_moves(copies, count) == between_shards(
            all_moves(copies, count),
            source,
            destination,
        ),
    decreases count,
{
    if count > 0 {
        lemma_byte_moves_between(copies, source, destination, count - 1);
        let copy = copies[count - 1];
        assert(copy.source == source && copy.destination == destination);
        assert(between_shards(
            all_moves(copies, count - 1) + moves(copy),
            source,
            destination,
        ) =~= between_shards(all_moves(copies, count - 1), source, destination) + between_shards(
            moves(copy),
            source,
            destination,
        ));
    } else {
        assert(between_shards(all_moves(copies, count), source, destination) =~= Seq::empty());
    }
}

proof fn lemma_byte_moves_prefix(a: Seq<LocalCopy>, b: Seq<LocalCopy>, count: int)
    requires
        count <= a.len(),
        count <= b.len(),
        forall|k: int| 0 <= k < count ==> a[k] == b[k],
    ensures
        all_byte_moves(a, count) == all_byte_moves(b, count),
    decreases count,
{
    if count > 0 {
        lemma_byte_moves_prefix(a, b, count - 1);
    }
}

proof fn lemma_byte_moves_concat(a: Seq<LocalCopy>, b: Seq<LocalCopy>, count: int)
    requires
        0 <= count <= b.len(),
    ensures
        all_byte_moves(a + b, a.len() + count) == all_byte_moves(a, a.len() as int)
            + all_byte_moves(b, count),
    decreases count,
{
    let head = all_byte_moves(a, a.len() as int);
    if count > 0 {
        lemma_byte_moves_concat(a, b, count - 1);
        let copy = b[count - 1];
        assert((a + b)[a.len() + count - 1] == copy);
        let last = between_shards(moves(copy), copy.source, copy.destination);
        assert(head + (all_byte_moves(b, count - 1) + last) =~= (head + all_byte_moves(
            b,
            count - 1,
        )) + last);
    } else {
        lemma_byte_moves_prefix(a + b, a, a.len() as int);
        assert(head + all_byte_moves(b, 0) =~= head);
    }
}

proof fn lemma_joined_between(copies: Seq<LocalCopy>, index: int, end: int)
    requires
        0 <= index,
        starts_sequence(copies, index),
        index + 2 <= end <= copies.len(),
        forall|m: int| index + 2 <= m < end ==> #[trigger] continues_sequence(copies, index, m),
    ensures
        all_between(
            copies.subrange(index, end),
            copies[index].source,
            copies[index].destination,
        ),
        all_between(
            joined_sequence(copies, index, end),
            copies[index].source,
            copies[index].destination,
        ),
{
    let part = copies.subrange(index, end);
    assert forall|i: int| 0 <= i < part.len() implies (#[trigger] part[i]).source
        == copies[index].source && part[i].destination == copies[index].destination by {
        if i >= 2 {
            assert(continues_sequence(copies, index, index + i));
        }
    }
}

proof fn lemma_coalesce_from_byte_moves(
    copies: Seq<LocalCopy>,
    index: int,
    done: Seq<LocalCopy>,
)
    requires
        0 <= index <= copies.len(),
        all_contiguous(copies),
        all_byte_moves(done, done.len() as int) == all_byte_moves(copies, index),
    ensures
        ({
            let joined = coalesce_from(copies, index, done);
            all_byte_moves(joined, joined.len() as int) == all_byte_moves(
                copies,
                copies.len() as int,
            )
        }),
    decreases copies.len() - index,
{
    if index < copies.len() {
        if !starts_sequence(copies, index) {
            lemma_byte_moves_prefix(done.push(copies[index]), done, done.len() as int);
            lemma_coalesce_from_byte_moves(copies, index + 1, done.push(copies[index]));
        } else {
            let end = sequence_end(copies, index, index + 2);
            lemma_sequence_end(copies, index, index + 2);
            lemma_joined_moves(copies, index, end);
            lemma_joined_between(copies, index, end);
            let joined = joined_sequence(copies, index, end);
            let head = copies.take(index);
            let middle = copies.subrange(index, end);
            let (source, destination) = (copies[index].source, copies[index].destination);
            lemma_byte_moves_between(joined, source, destination, joined.len() as int);
            lemma_byte_moves_between(middle, source, destination, end - index);
            lemma_byte_moves_concat(done, joined, joined.len() as int);
            lemma_byte_moves_concat(head, middle, end - index);
            lemma_byte_moves_prefix(head + middle, copies, end);
            lemma_byte_moves_prefix(head, copies, index);
            lemma_coalesce_from_byte_moves(copies, end, done + joined);
        }
    }
}

proof fn lemma_coalesce_from_between(
    copies: Seq<LocalCopy>,
    index: int,
    done: Seq<LocalCopy>,
    source: LowShardId,
    destination: LowShardId,
)
    requires
        0 <= index <= copies.len(),
        all_between(copies, source, destination),
        all_between(done, source, destination),
    ensures
        all_between(coalesce_from(copies, index, done), source, destination),
    decreases copies.len() - index,
{
    if index < copies.len() {
        if !starts_sequence(copies, index) {
            lemma_coalesce_from_between(
                copies,
                index + 1,
                done.push(copies[index]),
                source,
                destination,
            );
        } else {
            let end = sequence_end(copies, index, index + 2);
            lemma_sequence_end(copies, index, index + 2);
            lemma_joined_between(copies, index, end);
            lemma_coalesce_from_between(
                copies,
                end,
                done + joined_sequence(copies, index, end),
                source,
                destination,
            );
        }
    }
}

/// Joining copies changes neither which bytes move, from which shard to which,
/// nor their order.
pub proof fn lemma_coalescing_preserves_moves(copies: Seq<LocalCopy>)
    requires
        all_contiguous(copies),
    ensures
        all_moves(coalesced(copies), coalesced(copies).len() as int) == all_moves(
            copies,
            copies.len() as int,
        ),
        all_byte_moves(coalesced(copies), coalesced(copies).len() as int) == all_byte_moves(
            copies,
            copies.len() as int,
        ),
{
    lemma_coalesce_from_moves(copies, 0, Seq::empty());
    lemma_coalesce_from_byte_moves(copies, 0, Seq::empty());
}

proof fn lemma_pair_from_between(
    source: LowShardId,
    destination: LowShardId,
    a: Seq<ByteSpan>,
    b: Seq<ByteSpan>,
    i: int,
    i_done: int,
    j: int,
    j_done: int,
    done: Seq<LocalCopy>,
)
    requires
        all_between(done, source, destination),
    ensures
        match pair_from(source, destination, a, b, i, i_done, j, j_done, done) {
            Err(_) => true,
            Ok(copies) => all_between(copies, source, destination),
        },
    decreases (a.len() - i) + (b.len() - j),
{
    if i < a.len() && j < b.len() {
        let bytes = if a[i].bytes - i_done <= b[j].bytes - j_done {
            a[i].bytes - i_done
        } else {
            b[j].bytes - j_done
        };
        let copy = LocalCopy {
            source,
            source_offset: (a[i].offset + i_done) as u32,
            destination,
            destination_offset: (b[j].offset + j_done) as u32,
            bytes: bytes as u32,
            pattern: LocalCopyPattern::Contiguous,
        };
        let a_ends = a[i].bytes - i_done <= b[j].bytes - j_done;
        let b_ends = b[j].bytes - j_done <= a[i].bytes - i_done;
        lemma_pair_from_between(
            source,
            destination,
            a,
            b,
            if a_ends {
                i + 1
            } else {
                i
            },
            if a_ends {
                0
            } else {
                i_done + bytes
            },
            if b_ends {
                j + 1
            } else {
                j
            },
            if b_ends {
                0
            } else {
                j_done + bytes
            },
            done.push(copy),
        );
    }
}

// ---------------------------------------------------------------- views

/// Storage errors are errors of lowering.
pub open spec fn spans_of<M: Target>(
    target: &M,
    shards: Seq<ShardModel>,
    view: ViewModel,
    order: ExchangeOrder,
) -> Result<Seq<ByteSpan>, LowLoweringError> {
    match shard_of(shards, view.shard) {
        Err(e) => Err(e),
        Ok(shard) => match (match order {
            ExchangeOrder::Semantic => logical_spans(target, shard, view),
            ExchangeOrder::Physical => physical_spans(target, shard, view),
        }) {
            Err(e) => Err(LowLoweringError::Storage(e)),
            Ok(spans) => Ok(spans),
        },
    }
}

/// The copies that carry one view over to another inside a tile.
pub open spec fn view_copies<M: Target>(
    target: &M,
    shards: Seq<ShardModel>,
    source: ViewModel,
    destination: ViewModel,
    order: ExchangeOrder,
) -> Result<Seq<LocalCopy>, LowLoweringError> {
    match spans_of(target, shards, source, order) {
        Err(e) => Err(e),
        Ok(a) => match spans_of(target, shards, destination, order) {
            Err(e) => Err(e),
            Ok(b) => match paired(source.shard, destination.shard, a, b) {
                Err(e) => Err(e),
                Ok(copies) => Ok(coalesced(copies)),
            },
        },
    }
}

/// Copies that all run on one tile.
pub open spec fn on_tile(copies: Seq<LocalCopy>, tile: u16) -> Seq<(u16, LocalCopy)> {
    Seq::new(copies.len(), |i: int| (tile, copies[i]))
}

/// `done` followed by the copies that carry one view over to another.
pub open spec fn with_view_copies<M: Target>(
    target: &M,
    shards: Seq<ShardModel>,
    source: ViewModel,
    destination: ViewModel,
    tile: u16,
    order: ExchangeOrder,
    done: Seq<(u16, LocalCopy)>,
) -> Result<Seq<(u16, LocalCopy)>, LowLoweringError> {
    match view_copies(target, shards, source, destination, order) {
        Err(e) => Err(e),
        Ok(copies) => Ok(done + on_tile(copies, tile)),
    }
}

proof fn lemma_pair_from_contiguous(
    source: LowShardId,
    destination: LowShardId,
    a: Seq<ByteSpan>,
    b: Seq<ByteSpan>,
    i: int,
    i_done: int,
    j: int,
    j_done: int,
    done: Seq<LocalCopy>,
)
    requires
        all_contiguous(done),
        pair_from(source, destination, a, b, i, i_done, j, j_done, done) is Ok,
    ensures
        all_contiguous(pair_from(source, destination, a, b, i, i_done, j, j_done, done)->Ok_0),
    decreases (a.len() - i) + (b.len() - j),
{
    if i < a.len() && j < b.len() {
        let bytes = if a[i].bytes - i_done <= b[j].bytes - j_done {
            a[i].bytes - i_done
        } else {
            b[j].bytes - j_done
        };
        let copy = LocalCopy {
            source,
            source_offset: (a[i].offset + i_done) as u32,
            destination,
            destination_offset: (b[j].offset + j_done) as u32,
            bytes: bytes as u32,
            pattern: LocalCopyPattern::Contiguous,
        };
        let a_ends = a[i].bytes - i_done <= b[j].bytes - j_done;
        let b_ends = b[j].bytes - j_done <= a[i].bytes - i_done;
        lemma_pair_from_contiguous(
            source,
            destination,
            a,
            b,
            if a_ends {
                i + 1
            } else {
                i
            },
            if a_ends {
                0
            } else {
                i_done + bytes
            },
            if b_ends {
                j + 1
            } else {
                j
            },
            if b_ends {
                0
            } else {
                j_done + bytes
            },
            done.push(copy),
        );
    }
}

/// The copies of a view to another are between the shards of the two.
pub proof fn lemma_view_copies_between<M: Target>(
    target: &M,
    shards: Seq<ShardModel>,
    source: ViewModel,
    destination: ViewModel,
    order: ExchangeOrder,
)
    ensures
        match view_copies(target, shards, source, destination, order) {
            Err(_) => true,
            Ok(copies) => all_between(copies, source.shard, destination.shard),
        },
{
    if let Ok(copies) = view_copies(target, shards, source, destination, order) {
        let a = spans_of(target, shards, source, order)->Ok_0;
        let b = spans_of(target, shards, destination, order)->Ok_0;
        let pairs = paired(source.shard, destination.shard, a, b)->Ok_0;
        lemma_pair_from_between(
            source.shard,
            destination.shard,
            a,
            b,
            0,
            0,
            0,
            0,
            Seq::empty(),
        );
        lemma_coalesce_from_between(pairs, 0, Seq::empty(), source.shard, destination.shard);
    }
}

/// Copying a view moves the n-th byte of the source view to the n-th byte of
/// the destination view, for every n, in order.
pub proof fn lemma_view_copies_move_every_byte<M: Target>(
    target: &M,
    shards: Seq<ShardModel>,
    source: ViewModel,
    destination: ViewModel,
    order: ExchangeOrder,
)
    requires
        view_copies(target, shards, source, destination, order) is Ok,
    ensures
        ({
            let copies = view_copies(target, shards, source, destination, order)->Ok_0;
            let a = spans_of(target, shards, source, order)->Ok_0;
            let b = spans_of(target, shards, destination, order)->Ok_0;
            let from = spans_bytes(a, a.len() as int);
            let to = spans_bytes(b, b.len() as int);
            &&& from.len() == to.len()
            &&& all_moves(copies, copies.len() as int) == Seq::new(
                from.len(),
                |k: int| (from[k], to[k]),
            )
            &&& all_between(copies, source.shard, destination.shard)
        }),
{
    lemma_view_copies_between(target, shards, source, destination, order);
    let a = spans_of(target, shards, source, order)->Ok_0;
    let b = spans_of(target, shards, destination, order)->Ok_0;
    let pairs = paired(source.shard, destination.shard, a, b)->Ok_0;
    lemma_pairing_moves_every_byte(source.shard, destination.shard, a, b);
    lemma_pair_from_contiguous(
        source.shard,
        destination.shard,
        a,
        b,
        0,
        0,
        0,
        0,
        Seq::empty(),
    );
    lemma_coalescing_preserves_moves(pairs);
}

impl LoweringState {
    /// The bytes of a view in the given order.
    pub fn spans_of<M: Target>(&self, target: &M, view: &ShardView, order: ExchangeOrder) -> (r:
        LowLoweringResult<Vec<ByteSpan>>)
        ensures
            match r {
                Ok(spans) => spans_of(target, self@.shards, view@, order) == Ok::<
                    Seq<ByteSpan>,
                    LowLoweringError,
                >(spans@),
                Err(e) => spans_of(target, self@.shards, view@, order) == Err::<
                    Seq<ByteSpan>,
                    LowLoweringError,
                >(e),
            },
    {
        let shard = self.shard(view.shard)?;
        let spans = match order {
            ExchangeOrder::Semantic => logical_view_byte_spans(target, shard, view),
            ExchangeOrder::Physical => view_byte_spans(target, shard, view),
        };
        match spans {
            Ok(spans) => Ok(spans),
            Err(e) => Err(LowLoweringError::Storage(e)),
        }
    }

    /// Appends the copies that carry one view over to another.
    pub fn append_view_copies<M: Target>(
        &self,
        target: &M,
        source: &ShardView,
        destination: &ShardView,
        tile: u16,
        order: ExchangeOrder,
        copies: &mut Vec<(u16, LocalCopy)>,
    ) -> (r: LowLoweringResult<()>)
        ensures
            match r {
                Ok(_) => with_view_copies(
                    target,
                    self@.shards,
                    source@,
                    destination@,
                    tile,
                    order,
                    old(copies)@,
                ) == Ok::<Seq<(u16, LocalCopy)>, LowLoweringError>(final(copies)@),
                Err(e) => with_view_copies(
                    target,
                    self@.shards,
                    source@,
                    destination@,
                    tile,
                    order,
                    old(copies)@,
                ) == Err::<Seq<(u16, LocalCopy)>, LowLoweringError>(e),
            },
    {
        let a = self.spans_of(target, source, order)?;
        let b = self.spans_of(target, destination, order)?;
        let pairs = pair_spans(source.shard, destination.shard, &a, &b)?;
        let joined = coalesce_local_copies(pairs);
        let ghost before = copies@;
        let mut i: usize = 0;
        while i < joined.len()
            invariant
                i <= joined@.len(),
                copies@ == before + on_tile(joined@, tile).take(i as int),
            decreases joined@.len() - i,
        {
            copies.push((tile, joined[i]));
            i += 1;
            assert(copies@ =~= before + on_tile(joined@, tile).take(i as int));
        }
        assert(on_tile(joined@, tile).take(joined@.len() as int) =~= on_tile(joined@, tile));
        Ok(())
    }
}

} // verus!
