//! Splitting joined attention heads into streams.

use crate::conversion::{lower_mapped_views, unpack_amp};
use crate::deferred::micro_panels;
use crate::extents::{min, min_u32, split_head_source, split_head_source_extents, tail};
use crate::lookup::{
    intersecting, is_part, lemma_intersecting_are_parts, value_shards,
};
use crate::low::{
    ExchangeOrder, LowLoweringError, LowLoweringResult, LowShardId, ShardModel, ShardView,
    ViewModel, WorkProvenance, WorkReason,
};
use crate::mid::{MidOperation, MidOperator};
use crate::model::{copy_all, deep, group_deep};
use crate::state::{did, found_all, shard_of, LoweringState, StateModel, Step};
use crate::target::Target;
use crate::tensor::{AmpOrder, ElementOrder, ShardExtent};
use vstd::prelude::*;

verus! {

/// One stream of an output that holds several.
pub open spec fn one_stream(extents: Seq<ShardExtent>, stream: u32) -> Seq<ShardExtent> {
    extents.update(
        0,
        ShardExtent {
            axis: extents[0].axis,
            start: stream,
            logical_end: (stream + 1) as u32,
            physical_end: (stream + 1) as u32,
        },
    )
}

/// Padding columns that go along with a part: those that source and output
/// share, where the part is a whole head and the source holds nothing else.
pub open spec fn head_padding(
    part: ShardExtent,
    source: ShardExtent,
    output: ShardExtent,
    base: u32,
    head_width: u32,
) -> u32 {
    if part.start == base && part.logical_end == base + head_width && source.start == base
        && source.logical_end == base + head_width {
        min(tail(source), tail(output))
    } else {
        0
    }
}

/// A part of the joined tensor, and where it goes in its stream.
pub open spec fn head_mapping(
    shards: Seq<ShardModel>,
    part: ViewModel,
    output: LowShardId,
    stream: Seq<ShardExtent>,
    base: u32,
    head_width: u32,
) -> (ViewModel, ViewModel) {
    let columns = part.extents[2];
    let padding = head_padding(
        columns,
        shards[part.shard.0 as int].extents[2],
        stream[2],
        base,
        head_width,
    );
    (
        ViewModel {
            shard: part.shard,
            extents: part.extents.update(
                2,
                ShardExtent { physical_end: (columns.physical_end + padding) as u32, ..columns },
            ),
        },
        ViewModel {
            shard: output,
            extents: seq![
                stream[0],
                part.extents[1],
                ShardExtent {
                    axis: 2,
                    start: (columns.start - base) as u32,
                    logical_end: (columns.logical_end - base) as u32,
                    physical_end: (columns.logical_end - base + padding) as u32,
                },
            ],
        },
    )
}

/// `done` followed by the mappings of the parts of one stream from `k` on.
pub open spec fn stream_mappings_from(
    shards: Seq<ShardModel>,
    parts: Seq<ViewModel>,
    output: LowShardId,
    stream: Seq<ShardExtent>,
    base: u32,
    head_width: u32,
    k: int,
    done: Seq<(ViewModel, ViewModel)>,
) -> Seq<(ViewModel, ViewModel)>
    decreases parts.len() - k,
{
    if k >= parts.len() {
        done
    } else {
        stream_mappings_from(
            shards,
            parts,
            output,
            stream,
            base,
            head_width,
            k + 1,
            done.push(head_mapping(shards, parts[k], output, stream, base, head_width)),
        )
    }
}

/// `done` followed by the mappings of the streams `stream..end` of one output.
pub open spec fn output_mappings_from(
    shards: Seq<ShardModel>,
    sources: Seq<LowShardId>,
    output: LowShardId,
    to: ShardModel,
    heads: u32,
    head_width: u32,
    stream: int,
    end: int,
    done: Seq<(ViewModel, ViewModel)>,
) -> Result<Seq<(ViewModel, ViewModel)>, LowLoweringError>
    decreases end - stream,
{
    if stream >= end {
        Ok(done)
    } else {
        let extents = one_stream(to.extents, stream as u32);
        match split_head_source(extents, heads, head_width) {
            Err(e) => Err(e),
            Ok((source, base)) => output_mappings_from(
                shards,
                sources,
                output,
                to,
                heads,
                head_width,
                stream + 1,
                end,
                stream_mappings_from(
                    shards,
                    intersecting(shards, sources, source, to.tile),
                    output,
                    extents,
                    base,
                    head_width,
                    0,
                    done,
                ),
            ),
        }
    }
}

/// `done` followed by the mappings of the outputs from `k` on. An output may
/// hold several complete streams.
pub open spec fn split_head_mappings_from(
    shards: Seq<ShardModel>,
    sources: Seq<LowShardId>,
    outputs: Seq<LowShardId>,
    heads: u32,
    head_width: u32,
    k: int,
    done: Seq<(ViewModel, ViewModel)>,
) -> Result<Seq<(ViewModel, ViewModel)>, LowLoweringError>
    decreases outputs.len() - k,
{
    if k >= outputs.len() {
        Ok(done)
    } else {
        match shard_of(shards, outputs[k]) {
            Err(e) => Err(e),
            Ok(to) => if to.extents.len() != 3 {
                Err(LowLoweringError::InvalidOperatorPlan)
            } else {
                match output_mappings_from(
                    shards,
                    sources,
                    outputs[k],
                    to,
                    heads,
                    head_width,
                    to.extents[0].start as int,
                    to.extents[0].logical_end as int,
                    done,
                ) {
                    Err(e) => Err(e),
                    Ok(more) => split_head_mappings_from(
                        shards,
                        sources,
                        outputs,
                        heads,
                        head_width,
                        k + 1,
                        more,
                    ),
                }
            },
        }
    }
}

/// The provenance of work on an operation's only result.
pub open spec fn result_provenance(operation: MidOperation, reason: WorkReason) -> WorkProvenance {
    WorkProvenance { operation: operation.source, value: Some(operation.results@[0]), reason }
}

/// The order is one that products leave their results in.
pub open spec fn is_product_order(order: ElementOrder) -> bool {
    order == ElementOrder::Amp(AmpOrder::Output) || order == ElementOrder::Amp(
        AmpOrder::TransposedLeft,
    )
}

pub fn is_left_by_products(order: ElementOrder) -> (r: bool)
    ensures
        r == is_product_order(order),
{
    match order {
        ElementOrder::Amp(AmpOrder::Output) => true,
        ElementOrder::Amp(AmpOrder::TransposedLeft) => true,
        _ => false,
    }
}

/// Splits heads by a logical exchange from row-major shards.
pub open spec fn split_heads_logically<M: Target>(
    target: &M,
    s: StateModel,
    operation: MidOperation,
    sources: Seq<LowShardId>,
    outputs: Seq<LowShardId>,
    heads: u32,
    head_width: u32,
) -> Step {
    match split_head_mappings_from(
        s.shards,
        sources,
        outputs,
        heads,
        head_width,
        0,
        Seq::empty(),
    ) {
        Err(e) => Err(e),
        Ok(mappings) => lower_mapped_views(
            target,
            s,
            mappings,
            true,
            ExchangeOrder::Semantic,
            result_provenance(operation, WorkReason::OperatorInputs),
        ),
    }
}

/// Splits heads where no panel exchange does: results of products are unpacked
/// first.
pub open spec fn split_heads_unpacked<M: Target>(
    target: &M,
    s: StateModel,
    operation: MidOperation,
    order: ElementOrder,
    sources: Seq<LowShardId>,
    outputs: Seq<LowShardId>,
    heads: u32,
    head_width: u32,
) -> Step {
    if is_product_order(order) {
        match unpack_amp(
            s,
            operation.inputs@[0],
            result_provenance(operation, WorkReason::OperatorKernel),
        ) {
            Err(e) => Err(e),
            Ok((_, None)) => Err(LowLoweringError::InvalidOperatorPlan),
            Ok((next, Some(staging))) => split_heads_logically(
                target,
                next,
                operation,
                staging,
                outputs,
                heads,
                head_width,
            ),
        }
    } else {
        split_heads_logically(target, s, operation, sources, outputs, heads, head_width)
    }
}

/// Splits the heads of an operation's input.
pub open spec fn lower_split_heads<M: Target>(
    target: &M,
    s: StateModel,
    operation: MidOperation,
    operator: MidOperator,
) -> Step {
    match operator {
        MidOperator::SplitHeads { heads } => if operation.inputs@.len() != 1 {
            Err(LowLoweringError::InvalidOperatorPlan)
        } else if operation.results@.len() != 1 {
            Err(LowLoweringError::ResultArity)
        } else {
            match value_shards(s, operation.inputs@[0]) {
                Err(e) => Err(e),
                Ok(sources) => match shard_of(s.shards, sources[0]) {
                    Err(e) => Err(e),
                    Ok(from) => {
                        let shape = from.tensor_type.shape;
                        if shape.len() != 3 || heads == 0 || shape[2] / heads == 0 || shape[2]
                            % heads != 0 {
                            Err(LowLoweringError::InvalidOperatorPlan)
                        } else {
                            let head_width = (shape[2] / heads) as u32;
                            match value_shards(s, operation.results@[0]) {
                                Err(e) => Err(e),
                                Ok(outputs) => match shard_of(s.shards, outputs[0]) {
                                    Err(e) => Err(e),
                                    Ok(to) => split_heads_between(
                                        target,
                                        s,
                                        operation,
                                        from,
                                        to,
                                        sources,
                                        outputs,
                                        heads,
                                        head_width,
                                    ),
                                },
                            }
                        }
                    },
                },
            }
        },
        _ => Err(LowLoweringError::InvalidOperatorPlan),
    }
}

/// Splits heads by a panel exchange where the formats permit one.
pub open spec fn split_heads_between<M: Target>(
    target: &M,
    s: StateModel,
    operation: MidOperation,
    from: ShardModel,
    to: ShardModel,
    sources: Seq<LowShardId>,
    outputs: Seq<LowShardId>,
    heads: u32,
    head_width: u32,
) -> Step {
    let order = from.tensor_type.format.layout.order;
    if target.spec_exchanges_panels(from.tensor_type.format, to.tensor_type.format) {
        match split_head_mappings_from(
            s.shards,
            sources,
            outputs,
            heads,
            head_width,
            0,
            Seq::empty(),
        ) {
            Err(e) => Err(e),
            Ok(mappings) => match micro_panels(target, s.shards, mappings) {
                Err(e) => Err(e),
                Ok(Some(pieces)) => lower_mapped_views(
                    target,
                    s,
                    pieces,
                    false,
                    ExchangeOrder::Physical,
                    result_provenance(operation, WorkReason::OperatorInputs),
                ),
                Ok(None) => split_heads_unpacked(
                    target,
                    s,
                    operation,
                    order,
                    sources,
                    outputs,
                    heads,
                    head_width,
                ),
            },
        }
    } else {
        split_heads_unpacked(target, s, operation, order, sources, outputs, heads, head_width)
    }
}

impl LoweringState {
    fn head_mapping(
        &self,
        part: &ShardView,
        output: LowShardId,
        stream: &Vec<ShardExtent>,
        base: u32,
        head_width: u32,
    ) -> (r: (ShardView, ShardView))
        requires
            stream@.len() == 3,
            part@.extents.len() == 3,
            part.shard.0 < self@.shards.len(),
            self@.shards[part.shard.0 as int].extents.len() == 3,
            base <= part@.extents[2].start < part@.extents[2].logical_end,
            part@.extents[2].physical_end == part@.extents[2].logical_end,
            part@.extents[2].logical_end <= base + stream@[2].logical_end,
        ensures
            r@ == head_mapping(self@.shards, part@, output, stream@, base, head_width),
    {
        broadcast use group_deep;

        let source: ShardExtent = self.shards[part.shard.0 as usize].extents[2];
        let columns: ShardExtent = part.extents[2];
        let out: ShardExtent = stream[2];
        let complete = columns.start == base && columns.logical_end as u64 == base as u64
            + head_width as u64 && source.start == base && source.logical_end as u64 == base as u64
            + head_width as u64;
        let padding: u32 = if complete {
            min_u32(
                source.physical_end.saturating_sub(source.logical_end),
                out.physical_end.saturating_sub(out.logical_end),
            )
        } else {
            0
        };
        let mut source_extents = copy_all(part.extents.as_slice());
        source_extents.set(
            2,
            ShardExtent {
                axis: columns.axis,
                start: columns.start,
                logical_end: columns.logical_end,
                physical_end: columns.physical_end + padding,
            },
        );
        let mut extents: Vec<ShardExtent> = Vec::new();
        extents.push(stream[0]);
        extents.push(part.extents[1]);
        extents.push(
            ShardExtent {
                axis: 2,
                start: columns.start - base,
                logical_end: columns.logical_end - base,
                physical_end: columns.logical_end - base + padding,
            },
        );
        let ghost expected = head_mapping(
            self@.shards,
            part@,
            output,
            stream@,
            base,
            head_width,
        );
        assert(extents@ =~= expected.1.extents);
        (
            ShardView { shard: part.shard, extents: source_extents },
            ShardView { shard: output, extents },
        )
    }

    pub fn split_head_mappings(
        &self,
        sources: &Vec<LowShardId>,
        outputs: &Vec<LowShardId>,
        heads: u32,
        head_width: u32,
    ) -> (r: LowLoweringResult<Vec<(ShardView, ShardView)>>)
        ensures
            found_all(
                r,
                split_head_mappings_from(
                    self@.shards,
                    sources@,
                    outputs@,
                    heads,
                    head_width,
                    0,
                    Seq::empty(),
                ),
            ),
    {
        broadcast use group_deep;

        let mut mappings: Vec<(ShardView, ShardView)> = Vec::new();
        let mut k: usize = 0;
        while k < outputs.len()
            invariant
                k <= outputs@.len(),
                split_head_mappings_from(
                    self@.shards,
                    sources@,
                    outputs@,
                    heads,
                    head_width,
                    0,
                    Seq::empty(),
                ) == split_head_mappings_from(
                    self@.shards,
                    sources@,
                    outputs@,
                    heads,
                    head_width,
                    k as int,
                    deep(mappings@),
                ),
            decreases outputs@.len() - k,
        {
            let output = outputs[k];
            let shard = self.shard(output)?;
            if shard.extents.len() != 3 {
                return Err(LowLoweringError::InvalidOperatorPlan);
            }
            let tile: u16 = shard.tile;
            let end: u32 = shard.extents[0].logical_end;
            let axis: u16 = shard.extents[0].axis;
            let ghost before = deep(mappings@);
            let mut stream: u32 = shard.extents[0].start;
            while stream < end
                invariant
                    output_mappings_from(
                        self@.shards,
                        sources@,
                        output,
                        shard@,
                        heads,
                        head_width,
                        shard@.extents[0].start as int,
                        end as int,
                        before,
                    ) == output_mappings_from(
                        self@.shards,
                        sources@,
                        output,
                        shard@,
                        heads,
                        head_width,
                        stream as int,
                        end as int,
                        deep(mappings@),
                    ),
                decreases end - stream,
            {
                let mut extents = copy_all(shard.extents.as_slice());
                extents.set(
                    0,
                    ShardExtent {
                        axis,
                        start: stream,
                        logical_end: stream + 1,
                        physical_end: stream + 1,
                    },
                );
                assert(extents@ == one_stream(shard@.extents, stream));
                let (source, base) = split_head_source_extents(
                    extents.as_slice(),
                    heads,
                    head_width,
                )?;
                let parts = self.intersecting_shard_set(sources, source.as_slice(), tile);
                let ghost model = deep(parts@);
                proof {
                    lemma_intersecting_are_parts(self@.shards, sources@, source@, tile);
                }
                let ghost inner = deep(mappings@);
                let mut p: usize = 0;
                while p < parts.len()
                    invariant
                        p <= parts@.len(),
                        stream_mappings_from(
                            self@.shards,
                            model,
                            output,
                            extents@,
                            base,
                            head_width,
                            0,
                            inner,
                        ) == stream_mappings_from(
                            self@.shards,
                            model,
                            output,
                            extents@,
                            base,
                            head_width,
                            p as int,
                            deep(mappings@),
                        ),
                    decreases parts@.len() - p,
                {
                    assert(model[p as int] == parts@[p as int]@);
                    assert(is_part(self@.shards, sources@, source@, model[p as int]));
                    let ghost part = model[p as int].extents;
                    assert(crate::extents::overlaps(
                        self@.shards[model[p as int].shard.0 as int].extents[2],
                        source@[2],
                    ));
                    let mapping = self.head_mapping(&parts[p], output, &extents, base, head_width);
                    mappings.push(mapping);
                    p += 1;
                }
                stream += 1;
            }
            k += 1;
        }
        Ok(mappings)
    }

    pub fn lower_split_heads<M: Target>(
        &mut self,
        target: &M,
        operation: &MidOperation,
        operator: MidOperator,
    ) -> (r: LowLoweringResult<()>)
        ensures
            did(
                r,
                final(self)@,
                lower_split_heads(target, old(self)@, *operation, operator),
            ),
    {
        let heads: u32 = match operator {
            MidOperator::SplitHeads { heads } => heads,
            _ => {
                return Err(LowLoweringError::InvalidOperatorPlan);
            },
        };
        if operation.inputs.len() != 1 {
            return Err(LowLoweringError::InvalidOperatorPlan);
        }
        if operation.results.len() != 1 {
            return Err(LowLoweringError::ResultArity);
        }
        let input = operation.inputs[0];
        let result = operation.results[0];
        let sources = self.value_shards(input)?;
        let from = self.shard(sources[0])?;
        let shape = &from.tensor_type.shape.0;
        if shape.len() != 3 || heads == 0 || shape[2] / heads == 0 || shape[2] % heads != 0 {
            return Err(LowLoweringError::InvalidOperatorPlan);
        }
        let head_width: u32 = shape[2] / heads;
        let outputs = self.value_shards(result)?;
        let to = self.shard(outputs[0])?;
        let order = from.tensor_type.format.layout.order;
        let exchange = WorkProvenance {
            operation: operation.source,
            value: Some(result),
            reason: WorkReason::OperatorInputs,
        };
        if target.supports_f16_micro_panel_exchange(
            &from.tensor_type.format,
            &to.tensor_type.format,
        ) {
            let mappings = self.split_head_mappings(&sources, &outputs, heads, head_width)?;
            match self.f16_micro_panel_mappings(target, &mappings)? {
                Some(pieces) => {
                    return self.lower_mapped_views(
                        target,
                        pieces,
                        false,
                        ExchangeOrder::Physical,
                        exchange,
                    );
                },
                None => {},
            }
        }
        let row_major = if is_left_by_products(order) {
            let kernel = WorkProvenance {
                operation: operation.source,
                value: Some(result),
                reason: WorkReason::OperatorKernel,
            };
            match self.unpack_amp_to_row_major(input, kernel)? {
                Some(staging) => staging,
                None => {
                    return Err(LowLoweringError::InvalidOperatorPlan);
                },
            }
        } else {
            sources
        };
        let mappings = self.split_head_mappings(&row_major, &outputs, heads, head_width)?;
        self.lower_mapped_views(target, mappings, true, ExchangeOrder::Semantic, exchange)
    }
}

} // verus!
