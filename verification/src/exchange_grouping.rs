//! Moving local copies out of the way of exchanges, so that exchanges that
//! follow each other can become one.

use crate::blocks::{
    backing, block_spans, BlockExchange, BlockExchangeModel, BlockKernel, BlockKernelModel,
    BlockOperation, BlockStepWith, BlockTarget, BuilderModel, CopyOrder, ExpansionError,
    ExpansionResult, TileGraphBuilder,
};
use crate::low::{
    LocalCopyPattern, ExchangePhaseId, LocalCopy, LowShardId, ShardModel, ShardView, ViewModel,
};
use crate::model::{deep, group_deep};
use crate::tensor::{ByteSpan, StorageError};
use vstd::prelude::*;

verus! {

// ---------------------------------------------------------------- overlap

/// One row meets a span.
pub open spec fn row_meets(offset: u32, bytes: u32, stride: u32, row: int, span: ByteSpan) -> bool {
    &&& offset + row * stride < span.offset + span.bytes
    &&& span.offset < offset + row * stride + bytes
}

/// Some row of a sequence of rows meets a span.
pub open spec fn rows_meet(offset: u32, rows: u32, bytes: u32, stride: u32, span: ByteSpan) -> bool {
    &&& bytes > 0
    &&& span.bytes > 0
    &&& exists|row: int| 0 <= row < rows && #[trigger] row_meets(offset, bytes, stride, row, span)
}

/// The first row that ends after the start of the span decides whether any row
/// meets it.
proof fn lemma_first_row_decides(
    offset: u32,
    rows: u32,
    bytes: u32,
    stride: u32,
    span: ByteSpan,
    first: int,
)
    requires
        bytes > 0,
        span.bytes > 0,
        stride > 0,
        first == (if span.offset < offset + bytes {
            0
        } else {
            (span.offset - offset - bytes) / (stride as int) + 1
        }),
    ensures
        rows_meet(offset, rows, bytes, stride, span) <==> first < rows && offset + first * stride
            < span.offset + span.bytes,
{
    let d = span.offset - offset - bytes;
    let n = stride as int;
    if d >= 0 {
        vstd::arithmetic::div_mod::lemma_fundamental_div_mod(d, n);
        assert(0 <= d % n < n);
        assert(d / n >= 0) by (nonlinear_arith)
            requires
                d >= 0,
                n > 0,
        ;
        assert(first * n == n * (d / n) + n) by (nonlinear_arith)
            requires
                first == d / n + 1,
        ;
        assert(first * stride > d);
    } else {
        assert(first * stride == 0) by (nonlinear_arith)
            requires
                first == 0,
        ;
    }
    assert(span.offset < offset + first * stride + bytes);
    if first < rows && offset + first * stride < span.offset + span.bytes {
        assert(row_meets(offset, bytes, stride, first, span));
    }
    assert forall|row: int|
        0 <= row < rows && #[trigger] row_meets(offset, bytes, stride, row, span) implies first
        < rows && offset + first * stride < span.offset + span.bytes by {
        if row < first {
            assert(d >= 0);
            assert(row * n <= n * (d / n)) by (nonlinear_arith)
                requires
                    row <= d / n,
                    n > 0,
            ;
            assert(row * stride <= d);
            assert(false);
        }
        assert(first * stride <= row * stride) by (nonlinear_arith)
            requires
                first <= row,
                stride > 0,
        ;
    }
}

/// Whether some row of a sequence of rows meets a span, without a walk over the
/// rows.
pub fn strided_overlap(offset: u32, rows: u32, bytes: u32, stride: u32, span: ByteSpan) -> (r: bool)
    ensures
        r == rows_meet(offset, rows, bytes, stride, span),
{
    if rows == 0 || bytes == 0 || span.bytes == 0 {
        return false;
    }
    let start: u64 = span.offset as u64;
    let end: u64 = start + span.bytes as u64;
    let row_end: u64 = offset as u64 + bytes as u64;
    if stride == 0 {
        assert forall|row: int| #[trigger]
            row_meets(offset, bytes, stride, row, span) == (offset < end && start < row_end) by {
            assert(row * 0 == 0);
        }
        assert(row_meets(offset, bytes, stride, 0, span) == (offset < end && start < row_end));
        return (offset as u64) < end && start < row_end;
    }
    let first: u64 = if start < row_end {
        0
    } else {
        (start - row_end) / stride as u64 + 1
    };
    proof {
        lemma_first_row_decides(offset, rows, bytes, stride, span, first as int);
    }
    if first >= rows as u64 {
        return false;
    }
    assert(0 <= first * stride <= 0xffff_ffff * 0xffff_ffff) by (nonlinear_arith)
        requires
            0 <= first <= 0xffff_ffff,
            0 <= stride <= 0xffff_ffff,
    ;
    (offset as u64 + first * stride as u64) < end
}

// ---------------------------------------------------------------- accesses

/// Rows of an allocation that are read or written.
#[derive(Clone, Copy, Debug)]
pub struct LocalAccess {
    pub root: LowShardId,
    pub offset: u32,
    pub rows: u32,
    pub bytes: u32,
    pub stride: u32,
    pub write: bool,
}

/// What a copy reads, or writes.
pub open spec fn copy_access(shards: Seq<ShardModel>, copy: LocalCopy, write: bool) -> LocalAccess {
    let (rows, bytes, stride) = match copy.pattern {
        LocalCopyPattern::Contiguous => (1u32, copy.bytes, 0u32),
        LocalCopyPattern::Strided { rows, row_bytes, source_stride, destination_stride } => (
            rows,
            row_bytes,
            if write {
                destination_stride
            } else {
                source_stride
            },
        ),
    };
    LocalAccess {
        root: backing(
            shards,
            if write {
                copy.destination
            } else {
                copy.source
            },
        ),
        offset: if write {
            copy.destination_offset
        } else {
            copy.source_offset
        },
        rows,
        bytes,
        stride,
        write,
    }
}

/// `done` followed by what the operations from `i` on access. `None` where an
/// operation is not a copy, nor a fill of bytes in a row.
pub open spec fn accesses_from<M: BlockTarget>(
    target: &M,
    s: BuilderModel,
    operations: Seq<BlockOperation>,
    i: int,
    done: Seq<LocalAccess>,
) -> Result<Option<Seq<LocalAccess>>, ExpansionError>
    decreases operations.len() - i,
{
    if i >= operations.len() {
        Ok(Some(done))
    } else {
        match operations[i] {
            BlockOperation::Copy { copy, .. } => if copy.0 >= s.local_copies.len() {
                Err(ExpansionError::InvalidOperatorPlan)
            } else {
                let copy = s.local_copies[copy.0 as int];
                accesses_from(
                    target,
                    s,
                    operations,
                    i + 1,
                    done.push(copy_access(s.shards, copy, false)).push(
                        copy_access(s.shards, copy, true),
                    ),
                )
            },
            BlockOperation::Compute { run, .. } => if run.0 >= s.kernel_runs.len() {
                Err(ExpansionError::InvalidOperatorPlan)
            } else {
                let run = s.kernel_runs[run.0 as int];
                match run.kernel {
                    BlockKernelModel::FillZero { offset, bytes, .. } => if run.outputs.len() == 0 {
                        Ok(None)
                    } else {
                        match block_spans(target, s.shards, run.outputs[0], CopyOrder::Physical) {
                            Err(e) => Err(e),
                            Ok(spans) => if spans.len() != 1 {
                                Ok(None)
                            } else if spans[0].offset + offset > u32::MAX {
                                Err(ExpansionError::Storage(StorageError::Overflow))
                            } else {
                                accesses_from(
                                    target,
                                    s,
                                    operations,
                                    i + 1,
                                    done.push(
                                        LocalAccess {
                                            root: backing(s.shards, run.outputs[0].shard),
                                            offset: (spans[0].offset + offset) as u32,
                                            rows: 1,
                                            bytes,
                                            stride: 0,
                                            write: true,
                                        },
                                    ),
                                )
                            },
                        }
                    },
                    _ => Ok(None),
                }
            },
            _ => Ok(None),
        }
    }
}

/// What operations access, where all are copies or fills.
pub open spec fn local_accesses<M: BlockTarget>(
    target: &M,
    s: BuilderModel,
    operations: Seq<BlockOperation>,
) -> Result<Option<Seq<LocalAccess>>, ExpansionError> {
    accesses_from(target, s, operations, 0, Seq::empty())
}

/// The access and one side of a transfer must keep their order if they meet:
/// they are in one allocation, and one of them writes.
pub open spec fn is_ordered(shards: Seq<ShardModel>, access: LocalAccess, view: ViewModel, write: bool) -> bool {
    backing(shards, view.shard) == access.root && (access.write || write)
}

/// The access meets some of the spans.
pub open spec fn meets(access: LocalAccess, spans: Seq<ByteSpan>) -> bool {
    exists|i: int|
        0 <= i < spans.len() && rows_meet(
            access.offset,
            access.rows,
            access.bytes,
            access.stride,
            #[trigger] spans[i],
        )
}

/// Whether the access may change places with one side of a transfer.
pub open spec fn commutes_with_view<M: BlockTarget>(
    target: &M,
    shards: Seq<ShardModel>,
    access: LocalAccess,
    view: ViewModel,
    order: CopyOrder,
    write: bool,
) -> Result<bool, ExpansionError> {
    if !is_ordered(shards, access, view, write) {
        Ok(true)
    } else {
        match block_spans(target, shards, view, order) {
            Err(e) => Err(e),
            Ok(spans) => Ok(!meets(access, spans)),
        }
    }
}

/// Whether the access may change places with the destinations from `j` on.
pub open spec fn commutes_with_views_from<M: BlockTarget>(
    target: &M,
    shards: Seq<ShardModel>,
    access: LocalAccess,
    views: Seq<ViewModel>,
    order: CopyOrder,
    j: int,
) -> Result<bool, ExpansionError>
    decreases views.len() - j,
{
    if j >= views.len() {
        Ok(true)
    } else {
        match commutes_with_view(target, shards, access, views[j], order, true) {
            Err(e) => Err(e),
            Ok(false) => Ok(false),
            Ok(true) => commutes_with_views_from(target, shards, access, views, order, j + 1),
        }
    }
}

/// Whether the access may change places with the transfers from `t` on.
pub open spec fn commutes_from<M: BlockTarget>(
    target: &M,
    shards: Seq<ShardModel>,
    access: LocalAccess,
    transfers: Seq<BlockExchangeModel>,
    t: int,
) -> Result<bool, ExpansionError>
    decreases transfers.len() - t,
{
    if t >= transfers.len() {
        Ok(true)
    } else {
        let BlockExchangeModel { source, destinations, order } = transfers[t];
        match commutes_with_view(target, shards, access, source, order, false) {
            Err(e) => Err(e),
            Ok(false) => Ok(false),
            Ok(true) => match commutes_with_views_from(
                target,
                shards,
                access,
                destinations,
                order,
                0,
            ) {
                Err(e) => Err(e),
                Ok(false) => Ok(false),
                Ok(true) => commutes_from(target, shards, access, transfers, t + 1),
            },
        }
    }
}

/// Whether all accesses from `i` on may change places with the transfers.
pub open spec fn all_commute_from<M: BlockTarget>(
    target: &M,
    shards: Seq<ShardModel>,
    accesses: Seq<LocalAccess>,
    transfers: Seq<BlockExchangeModel>,
    i: int,
) -> Result<bool, ExpansionError>
    decreases accesses.len() - i,
{
    if i >= accesses.len() {
        Ok(true)
    } else {
        match commutes_from(target, shards, accesses[i], transfers, 0) {
            Err(e) => Err(e),
            Ok(false) => Ok(false),
            Ok(true) => all_commute_from(target, shards, accesses, transfers, i + 1),
        }
    }
}

/// No byte of an access is a byte of the other side of a transfer, where one of
/// the two writes.
pub open spec fn keeps_apart<M: BlockTarget>(
    target: &M,
    shards: Seq<ShardModel>,
    access: LocalAccess,
    view: ViewModel,
    order: CopyOrder,
    write: bool,
) -> bool {
    is_ordered(shards, access, view, write) ==> block_spans(target, shards, view, order) is Ok
        && !meets(access, block_spans(target, shards, view, order)->Ok_0)
}

proof fn lemma_commuting_views_keep_apart<M: BlockTarget>(
    target: &M,
    shards: Seq<ShardModel>,
    access: LocalAccess,
    views: Seq<ViewModel>,
    order: CopyOrder,
    from: int,
    j: int,
)
    requires
        0 <= from <= j < views.len(),
        commutes_with_views_from(target, shards, access, views, order, from) == Ok::<
            bool,
            ExpansionError,
        >(true),
    ensures
        keeps_apart(target, shards, access, views[j], order, true),
    decreases j - from,
{
    if from < j {
        lemma_commuting_views_keep_apart(target, shards, access, views, order, from + 1, j);
    }
}

proof fn lemma_commuting_transfers_keep_apart<M: BlockTarget>(
    target: &M,
    shards: Seq<ShardModel>,
    access: LocalAccess,
    transfers: Seq<BlockExchangeModel>,
    from: int,
    t: int,
)
    requires
        0 <= from <= t < transfers.len(),
        commutes_from(target, shards, access, transfers, from) == Ok::<bool, ExpansionError>(true),
    ensures
        keeps_apart(target, shards, access, transfers[t].source, transfers[t].order, false),
        forall|j: int|
            0 <= j < transfers[t].destinations.len() ==> keeps_apart(
                target,
                shards,
                access,
                #[trigger] transfers[t].destinations[j],
                transfers[t].order,
                true,
            ),
    decreases t - from,
{
    if from < t {
        lemma_commuting_transfers_keep_apart(target, shards, access, transfers, from + 1, t);
    } else {
        assert forall|j: int| 0 <= j < transfers[t].destinations.len() implies keeps_apart(
            target,
            shards,
            access,
            #[trigger] transfers[t].destinations[j],
            transfers[t].order,
            true,
        ) by {
            lemma_commuting_views_keep_apart(
                target,
                shards,
                access,
                transfers[t].destinations,
                transfers[t].order,
                0,
                j,
            );
        }
    }
}

/// Where copies may change places with transfers, no transfer reads a byte that
/// a copy writes, and none writes a byte that a copy reads or writes.
pub proof fn lemma_commuting_accesses_keep_apart<M: BlockTarget>(
    target: &M,
    shards: Seq<ShardModel>,
    accesses: Seq<LocalAccess>,
    transfers: Seq<BlockExchangeModel>,
    from: int,
    i: int,
    t: int,
)
    requires
        0 <= from <= i < accesses.len(),
        0 <= t < transfers.len(),
        all_commute_from(target, shards, accesses, transfers, from) == Ok::<bool, ExpansionError>(
            true,
        ),
    ensures
        keeps_apart(target, shards, accesses[i], transfers[t].source, transfers[t].order, false),
        forall|j: int|
            0 <= j < transfers[t].destinations.len() ==> keeps_apart(
                target,
                shards,
                accesses[i],
                #[trigger] transfers[t].destinations[j],
                transfers[t].order,
                true,
            ),
    decreases i - from,
{
    if from < i {
        lemma_commuting_accesses_keep_apart(
            target,
            shards,
            accesses,
            transfers,
            from + 1,
            i,
            t,
        );
    } else {
        lemma_commuting_transfers_keep_apart(target, shards, accesses[i], transfers, 0, t);
    }
}

// ---------------------------------------------------------------- grouping

/// The last position below `end` of the marker of a phase.
pub open spec fn last_marker(operations: Seq<BlockOperation>, phase: ExchangePhaseId, end: int) -> Option<
    int,
>
    decreases end,
{
    if end <= 0 {
        None
    } else if operations[end - 1] == BlockOperation::Exchange(phase) {
        Some(end - 1)
    } else {
        last_marker(operations, phase, end - 1)
    }
}

/// The operations with the one at `at` moved to the end.
pub open spec fn moved_to_end(operations: Seq<BlockOperation>, at: int) -> Seq<BlockOperation> {
    operations.remove(at).push(operations[at])
}

/// Makes an exchange the last operation, or shows that the next exchange may
/// come directly after it: the operations in between are copies and fills that
/// change places with one of the two.
pub open spec fn group_exchange_copies<M: BlockTarget>(
    target: &M,
    s: BuilderModel,
    previous: ExchangePhaseId,
    next: Seq<BlockExchangeModel>,
) -> BlockStepWith<bool> {
    match last_marker(s.operations, previous, s.operations.len() as int) {
        None => Ok((s, false)),
        Some(at) => if at + 1 == s.operations.len() {
            Ok((s, true))
        } else {
            match local_accesses(
                target,
                s,
                s.operations.subrange(at + 1, s.operations.len() as int),
            ) {
                Err(e) => Err(e),
                Ok(None) => Ok((s, false)),
                Ok(Some(accesses)) => match all_commute_from(
                    target,
                    s.shards,
                    accesses,
                    next,
                    0,
                ) {
                    Err(e) => Err(e),
                    Ok(true) => Ok((s, true)),
                    Ok(false) => if previous.0 >= s.phases.len() {
                        Err(ExpansionError::InvalidOperatorPlan)
                    } else {
                        match all_commute_from(
                            target,
                            s.shards,
                            accesses,
                            s.phases[previous.0 as int].transfers,
                            0,
                        ) {
                            Err(e) => Err(e),
                            Ok(false) => Ok((s, false)),
                            Ok(true) => Ok(
                                (
                                    BuilderModel {
                                        operations: moved_to_end(s.operations, at),
                                        ..s
                                    },
                                    true,
                                ),
                            ),
                        }
                    },
                },
            }
        },
    }
}

/// Grouping keeps every operation, and the order of all but the exchange.
pub proof fn lemma_grouping_keeps_operations(operations: Seq<BlockOperation>, at: int)
    requires
        0 <= at < operations.len(),
    ensures
        moved_to_end(operations, at).len() == operations.len(),
        moved_to_end(operations, at).last() == operations[at],
        moved_to_end(operations, at).drop_last() == operations.remove(at),
        moved_to_end(operations, at).to_multiset() == operations.to_multiset(),
{
    broadcast use vstd::seq_lib::group_to_multiset_ensures;

    assert(moved_to_end(operations, at).drop_last() =~= operations.remove(at));
    assert(operations.remove(at).insert(at, operations[at]) =~= operations);
    assert(operations.to_multiset() =~= operations.remove(at).to_multiset().insert(
        operations[at],
    ));
    assert(moved_to_end(operations, at).to_multiset() =~= operations.remove(
        at,
    ).to_multiset().insert(operations[at]));
}

impl TileGraphBuilder {
    fn access_of(&self, copy: LocalCopy, write: bool) -> (r: LocalAccess)
        ensures
            r == copy_access(self@.shards, copy, write),
    {
        let (rows, bytes, stride): (u32, u32, u32) = match copy.pattern {
            LocalCopyPattern::Contiguous => (1, copy.bytes, 0),
            LocalCopyPattern::Strided { rows, row_bytes, source_stride, destination_stride } => {
                let stride: u32 = if write {
                    destination_stride
                } else {
                    source_stride
                };
                (rows, row_bytes, stride)
            },
        };
        if write {
            LocalAccess {
                root: self.backing(copy.destination),
                offset: copy.destination_offset,
                rows,
                bytes,
                stride,
                write,
            }
        } else {
            LocalAccess {
                root: self.backing(copy.source),
                offset: copy.source_offset,
                rows,
                bytes,
                stride,
                write,
            }
        }
    }

    /// What the operations from `start` on access.
    fn local_accesses<M: BlockTarget>(&self, target: &M, start: usize) -> (r: ExpansionResult<
        Option<Vec<LocalAccess>>,
    >)
        requires
            start <= self@.operations.len(),
        ensures
            ({
                let expected = local_accesses(
                    target,
                    self@,
                    self@.operations.subrange(start as int, self@.operations.len() as int),
                );
                match r {
                    Ok(Some(accesses)) => expected == Ok::<
                        Option<Seq<LocalAccess>>,
                        ExpansionError,
                    >(Some(accesses@)),
                    Ok(None) => expected == Ok::<Option<Seq<LocalAccess>>, ExpansionError>(None),
                    Err(e) => expected == Err::<Option<Seq<LocalAccess>>, ExpansionError>(e),
                }
            }),
    {
        broadcast use group_deep;

        let ghost operations = self@.operations.subrange(
            start as int,
            self@.operations.len() as int,
        );
        let mut accesses: Vec<LocalAccess> = Vec::new();
        let mut i: usize = start;
        while i < self.operations.len()
            invariant
                start <= i <= self.operations@.len(),
                local_accesses(target, self@, operations) == accesses_from(
                    target,
                    self@,
                    operations,
                    i - start,
                    accesses@,
                ),
            decreases self.operations@.len() - i,
        {
            assert(operations[i - start] == self.operations@[i as int]);
            match self.operations[i] {
                BlockOperation::Copy { copy, .. } => {
                    if copy.0 as usize >= self.local_copies.len() {
                        return Err(ExpansionError::InvalidOperatorPlan);
                    }
                    let copy = self.local_copies[copy.0 as usize];
                    accesses.push(self.access_of(copy, false));
                    accesses.push(self.access_of(copy, true));
                },
                BlockOperation::Compute { run, .. } => {
                    if run.0 as usize >= self.kernel_runs.len() {
                        return Err(ExpansionError::InvalidOperatorPlan);
                    }
                    let run = &self.kernel_runs[run.0 as usize];
                    match &run.kernel {
                        BlockKernel::FillZero { offset, bytes, .. } => {
                            if run.outputs.len() == 0 {
                                return Ok(None);
                            }
                            let spans = self.spans(target, &run.outputs[0], CopyOrder::Physical)?;
                            if spans.len() != 1 {
                                return Ok(None);
                            }
                            match spans[0].offset.checked_add(*offset) {
                                Some(at) => {
                                    accesses.push(
                                        LocalAccess {
                                            root: self.backing(run.outputs[0].shard),
                                            offset: at,
                                            rows: 1,
                                            bytes: *bytes,
                                            stride: 0,
                                            write: true,
                                        },
                                    );
                                },
                                None => {
                                    return Err(ExpansionError::Storage(StorageError::Overflow));
                                },
                            }
                        },
                        _ => {
                            return Ok(None);
                        },
                    }
                },
                _ => {
                    return Ok(None);
                },
            }
            i += 1;
        }
        Ok(Some(accesses))
    }

    fn commutes_with_view<M: BlockTarget>(
        &self,
        target: &M,
        access: LocalAccess,
        view: &ShardView,
        order: CopyOrder,
        write: bool,
    ) -> (r: ExpansionResult<bool>)
        ensures
            r == commutes_with_view(target, self@.shards, access, view@, order, write),
    {
        if self.backing(view.shard) != access.root || (!access.write && !write) {
            return Ok(true);
        }
        let spans = self.spans(target, view, order)?;
        let mut i: usize = 0;
        while i < spans.len()
            invariant
                i <= spans@.len(),
                forall|k: int|
                    0 <= k < i ==> !rows_meet(
                        access.offset,
                        access.rows,
                        access.bytes,
                        access.stride,
                        #[trigger] spans@[k],
                    ),
            decreases spans@.len() - i,
        {
            if strided_overlap(
                access.offset,
                access.rows,
                access.bytes,
                access.stride,
                spans[i],
            ) {
                return Ok(false);
            }
            i += 1;
        }
        Ok(true)
    }

    fn commutes<M: BlockTarget>(
        &self,
        target: &M,
        access: LocalAccess,
        transfers: &Vec<BlockExchange>,
    ) -> (r: ExpansionResult<bool>)
        ensures
            r == commutes_from(target, self@.shards, access, deep(transfers@), 0),
    {
        broadcast use group_deep;

        let ghost model = deep(transfers@);
        let mut t: usize = 0;
        while t < transfers.len()
            invariant
                t <= transfers@.len(),
                commutes_from(target, self@.shards, access, model, 0) == commutes_from(
                    target,
                    self@.shards,
                    access,
                    model,
                    t as int,
                ),
            decreases transfers@.len() - t,
        {
            assert(model[t as int] == transfers@[t as int]@);
            let transfer = &transfers[t];
            if !self.commutes_with_view(target, access, &transfer.source, transfer.order, false)? {
                return Ok(false);
            }
            let ghost views = model[t as int].destinations;
            let mut j: usize = 0;
            while j < transfer.destinations.len()
                invariant
                    j <= transfer.destinations@.len(),
                    commutes_with_views_from(
                        target,
                        self@.shards,
                        access,
                        views,
                        transfer.order,
                        0,
                    ) == commutes_with_views_from(
                        target,
                        self@.shards,
                        access,
                        views,
                        transfer.order,
                        j as int,
                    ),
                decreases transfer.destinations@.len() - j,
            {
                assert(views[j as int] == transfer.destinations@[j as int]@);
                if !self.commutes_with_view(
                    target,
                    access,
                    &transfer.destinations[j],
                    transfer.order,
                    true,
                )? {
                    return Ok(false);
                }
                j += 1;
            }
            t += 1;
        }
        Ok(true)
    }

    fn accesses_commute<M: BlockTarget>(
        &self,
        target: &M,
        accesses: &Vec<LocalAccess>,
        transfers: &Vec<BlockExchange>,
    ) -> (r: ExpansionResult<bool>)
        ensures
            r == all_commute_from(target, self@.shards, accesses@, deep(transfers@), 0),
    {
        let mut i: usize = 0;
        while i < accesses.len()
            invariant
                i <= accesses@.len(),
                all_commute_from(target, self@.shards, accesses@, deep(transfers@), 0)
                    == all_commute_from(
                    target,
                    self@.shards,
                    accesses@,
                    deep(transfers@),
                    i as int,
                ),
            decreases accesses@.len() - i,
        {
            if !self.commutes(target, accesses[i], transfers)? {
                return Ok(false);
            }
            i += 1;
        }
        Ok(true)
    }

    /// Makes an exchange the last operation, or shows that the next exchange
    /// may come directly after it.
    pub fn group_exchange_copies<M: BlockTarget>(
        &mut self,
        target: &M,
        previous: ExchangePhaseId,
        next: &Vec<BlockExchange>,
    ) -> (r: ExpansionResult<bool>)
        ensures
            crate::blocks::yielded(
                r,
                final(self)@,
                group_exchange_copies(target, old(self)@, previous, deep(next@)),
            ),
    {
        broadcast use group_deep;

        let mut end: usize = self.operations.len();
        while end > 0 && self.operations[end - 1] != BlockOperation::Exchange(previous)
            invariant
                end <= self.operations@.len(),
                last_marker(self@.operations, previous, self@.operations.len() as int)
                    == last_marker(self@.operations, previous, end as int),
            decreases end,
        {
            end -= 1;
        }
        if end == 0 {
            return Ok(false);
        }
        let at: usize = end - 1;
        if end == self.operations.len() {
            return Ok(true);
        }
        let accesses = match self.local_accesses(target, end)? {
            Some(accesses) => accesses,
            None => {
                return Ok(false);
            },
        };
        if self.accesses_commute(target, &accesses, next)? {
            return Ok(true);
        }
        if previous.0 as usize >= self.phases.len() {
            return Err(ExpansionError::InvalidOperatorPlan);
        }
        assert(self@.phases[previous.0 as int] == self.phases@[previous.0 as int]@);
        if self.accesses_commute(
            target,
            &accesses,
            &self.phases[previous.0 as usize].transfers,
        )? {
            let marker = self.operations.remove(at);
            self.operations.push(marker);
            return Ok(true);
        }
        Ok(false)
    }
}

} // verus!
