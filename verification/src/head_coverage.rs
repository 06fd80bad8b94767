//! What splitting heads carries: every element of a stream, from its place in
//! the joined tensor.

use crate::carriage::{begins, is_delivered, lemma_mapped_views_are_delivered};
use crate::coverage::{fills, lemma_intersecting_cover};
use crate::extents::{
    covers, lemma_intersection_covers_common_elements, overlap, rectangles_overlap,
    split_head_source,
};
use crate::heads::{
    head_mapping, one_stream, output_mappings_from, result_provenance, split_head_mappings_from,
    split_heads_logically, stream_mappings_from,
};
use crate::lookup::{intersecting, is_part, lemma_intersecting_are_parts};
use crate::low::{
    ExchangeOrder, LowShardId, ShardModel, ViewModel, WorkReason,
};
use crate::mid::MidOperation;
use crate::state::{shard_of, StateModel};
use crate::target::Target;
use crate::tensor::ShardExtent;
use vstd::prelude::*;

verus! {

/// Where an element of a stream stands in the joined tensor.
pub open spec fn joined_element(element: Seq<int>, heads: u32, head_width: u32) -> Seq<int> {
    seq![
        element[0] / (heads as int),
        element[1],
        (element[0] % (heads as int)) * head_width + element[2],
    ]
}

/// A mapping carries elements of a source from their places in the joined
/// tensor to a view of an output.
pub open spec fn splits(
    shards: Seq<ShardModel>,
    sources: Seq<LowShardId>,
    heads: u32,
    head_width: u32,
    mapping: (ViewModel, ViewModel),
) -> bool {
    &&& sources.contains(mapping.0.shard)
    &&& mapping.0.shard.0 < shards.len()
    &&& forall|element: Seq<int>|
        element.len() == 3 && #[trigger] covers(mapping.1.extents, element) ==> covers(
            mapping.0.extents,
            joined_element(element, heads, head_width),
        ) && covers(
            shards[mapping.0.shard.0 as int].extents,
            joined_element(element, heads, head_width),
        )
}

/// All mappings carry elements from their places in the joined tensor.
pub open spec fn all_split(
    shards: Seq<ShardModel>,
    sources: Seq<LowShardId>,
    heads: u32,
    head_width: u32,
    mappings: Seq<(ViewModel, ViewModel)>,
) -> bool {
    forall|m: int|
        0 <= m < mappings.len() ==> splits(
            shards,
            sources,
            heads,
            head_width,
            #[trigger] mappings[m],
        )
}

/// The rectangle that one stream of an output reads.
proof fn lemma_stream_source(
    to: Seq<ShardExtent>,
    stream: u32,
    heads: u32,
    head_width: u32,
    element: Seq<int>,
)
    requires
        to.len() == 3,
        stream < u32::MAX,
        element.len() == 3,
        element[0] == stream,
        split_head_source(one_stream(to, stream), heads, head_width) is Ok,
    ensures
        ({
            let (source, base) = split_head_source(
                one_stream(to, stream),
                heads,
                head_width,
            )->Ok_0;
            let joined = joined_element(element, heads, head_width);
            &&& source.len() == 3
            &&& joined[0] == source[0].start
            &&& source[0].logical_end == source[0].start + 1
            &&& source[1].start == to[1].start
            &&& source[1].logical_end == to[1].logical_end
            &&& source[2].start == base + to[2].start
            &&& source[2].logical_end == base + to[2].logical_end
            &&& joined[2] == base + element[2]
        }),
{
    let h = heads as int;
    assert(0 <= stream as int / h <= stream as int) by (nonlinear_arith)
        requires
            h > 0,
            stream >= 0,
    ;
    let head = stream as int % h;
    assert(0 <= head * head_width) by (nonlinear_arith)
        requires
            0 <= head,
            0 <= head_width,
    ;
}

/// A part of a stream's source goes where its elements belong.
proof fn lemma_head_mapping(
    shards: Seq<ShardModel>,
    sources: Seq<LowShardId>,
    output: LowShardId,
    to: Seq<ShardExtent>,
    stream: u32,
    heads: u32,
    head_width: u32,
    part: ViewModel,
)
    requires
        to.len() == 3,
        stream < u32::MAX,
        split_head_source(one_stream(to, stream), heads, head_width) is Ok,
        is_part(
            shards,
            sources,
            split_head_source(one_stream(to, stream), heads, head_width)->Ok_0.0,
            part,
        ),
    ensures
        ({
            let (source, base) = split_head_source(
                one_stream(to, stream),
                heads,
                head_width,
            )->Ok_0;
            let mapping = head_mapping(
                shards,
                part,
                output,
                one_stream(to, stream),
                base,
                head_width,
            );
            &&& mapping.1.shard == output
            &&& splits(shards, sources, heads, head_width, mapping)
            &&& forall|element: Seq<int>|
                element.len() == 3 && element[0] == stream && #[trigger] covers(
                    part.extents,
                    joined_element(element, heads, head_width),
                ) ==> covers(mapping.1.extents, element)
        }),
{
    let extents = one_stream(to, stream);
    let (source, base) = split_head_source(extents, heads, head_width)->Ok_0;
    let held = shards[part.shard.0 as int].extents;
    let mapping = head_mapping(shards, part, output, extents, base, head_width);
    assert(rectangles_overlap(held, source));
    lemma_stream_source(to, stream, heads, head_width, seq![stream as int, 0, 0]);
    assert(part.extents.len() == 3);
    assert(part.extents[0] == overlap(held[0], source[0]));
    assert(part.extents[1] == overlap(held[1], source[1]));
    assert(part.extents[2] == overlap(held[2], source[2]));
    assert forall|element: Seq<int>|
        element.len() == 3 && #[trigger] covers(mapping.1.extents, element) implies covers(
        mapping.0.extents,
        joined_element(element, heads, head_width),
    ) && covers(held, joined_element(element, heads, head_width)) by {
        let joined = joined_element(element, heads, head_width);
        assert(mapping.1.extents[0].start <= element[0] < mapping.1.extents[0].logical_end);
        assert(mapping.1.extents[1].start <= element[1] < mapping.1.extents[1].logical_end);
        assert(mapping.1.extents[2].start <= element[2] < mapping.1.extents[2].logical_end);
        assert(element[0] == stream);
        lemma_stream_source(to, stream, heads, head_width, element);
        crate::extents::lemma_intersection_covers_common_elements(held, source, joined);
        assert(crate::extents::overlaps(held[0], source[0]));
        assert(covers(part.extents, joined));
        assert forall|i: int| 0 <= i < mapping.0.extents.len() implies (
        #[trigger] mapping.0.extents[i]).start <= joined[i] < mapping.0.extents[i].logical_end by {
            assert(part.extents[i].start <= joined[i] < part.extents[i].logical_end);
        }
    }
    assert forall|element: Seq<int>|
        element.len() == 3 && element[0] == stream && #[trigger] covers(
            part.extents,
            joined_element(element, heads, head_width),
        ) implies covers(mapping.1.extents, element) by {
        let joined = joined_element(element, heads, head_width);
        lemma_stream_source(to, stream, heads, head_width, element);
        assert(part.extents[1].start <= joined[1] < part.extents[1].logical_end);
        assert(part.extents[2].start <= joined[2] < part.extents[2].logical_end);
    }
}

proof fn lemma_stream_mappings(
    shards: Seq<ShardModel>,
    sources: Seq<LowShardId>,
    output: LowShardId,
    to: Seq<ShardExtent>,
    stream: u32,
    heads: u32,
    head_width: u32,
    parts: Seq<ViewModel>,
    k: int,
    done: Seq<(ViewModel, ViewModel)>,
)
    requires
        0 <= k,
        to.len() == 3,
        stream < u32::MAX,
        split_head_source(one_stream(to, stream), heads, head_width) is Ok,
        forall|i: int|
            0 <= i < parts.len() ==> is_part(
                shards,
                sources,
                split_head_source(one_stream(to, stream), heads, head_width)->Ok_0.0,
                #[trigger] parts[i],
            ),
        all_split(shards, sources, heads, head_width, done),
    ensures
        ({
            let base = split_head_source(one_stream(to, stream), heads, head_width)->Ok_0.1;
            let all = stream_mappings_from(
                shards,
                parts,
                output,
                one_stream(to, stream),
                base,
                head_width,
                k,
                done,
            );
            &&& begins(all, done)
            &&& all_split(shards, sources, heads, head_width, all)
            &&& k <= parts.len() ==> all.len() == done.len() + parts.len() - k
            &&& forall|i: int|
                k <= i < parts.len() ==> all[done.len() + i - k] == head_mapping(
                    shards,
                    #[trigger] parts[i],
                    output,
                    one_stream(to, stream),
                    base,
                    head_width,
                )
        }),
    decreases parts.len() - k,
{
    if k < parts.len() {
        let extents = one_stream(to, stream);
        let base = split_head_source(extents, heads, head_width)->Ok_0.1;
        let mapping = head_mapping(shards, parts[k], output, extents, base, head_width);
        let more = done.push(mapping);
        lemma_head_mapping(shards, sources, output, to, stream, heads, head_width, parts[k]);
        assert forall|m: int| 0 <= m < more.len() implies splits(
            shards,
            sources,
            heads,
            head_width,
            #[trigger] more[m],
        ) by {
            if m < done.len() {
                assert(more[m] == done[m]);
            }
        }
        lemma_stream_mappings(
            shards,
            sources,
            output,
            to,
            stream,
            heads,
            head_width,
            parts,
            k + 1,
            more,
        );
        let all = stream_mappings_from(
            shards,
            parts,
            output,
            extents,
            base,
            head_width,
            k,
            done,
        );
        assert forall|m: int| 0 <= m < done.len() implies #[trigger] all[m] == done[m] by {
            assert(all[m] == more[m]);
        }
        assert(all[done.len() as int] == more[done.len() as int]);
    }
}

/// The mappings of one output carry elements from their places, and fill the
/// given element where a source holds it.
proof fn lemma_output_mappings(
    shards: Seq<ShardModel>,
    sources: Seq<LowShardId>,
    output: LowShardId,
    to: ShardModel,
    heads: u32,
    head_width: u32,
    stream: int,
    end: int,
    done: Seq<(ViewModel, ViewModel)>,
    j: int,
    element: Seq<int>,
)
    requires
        to.extents.len() == 3,
        0 <= stream,
        end <= u32::MAX,
        all_split(shards, sources, heads, head_width, done),
    ensures
        match output_mappings_from(
            shards,
            sources,
            output,
            to,
            heads,
            head_width,
            stream,
            end,
            done,
        ) {
            Err(_) => true,
            Ok(all) => {
                &&& begins(all, done)
                &&& all_split(shards, sources, heads, head_width, all)
                &&& (element.len() == 3 && stream <= element[0] < end && covers(
                    to.extents,
                    element,
                ) && 0 <= j < sources.len() && sources[j].0 < shards.len() && covers(
                    shards[sources[j].0 as int].extents,
                    joined_element(element, heads, head_width),
                )) ==> exists|m: int|
                    0 <= m < all.len() && fills(#[trigger] all[m], output, element)
            },
        },
    decreases end - stream,
{
    if stream < end {
        let extents = one_stream(to.extents, stream as u32);
        if let Ok((source, base)) = split_head_source(extents, heads, head_width) {
            let parts = intersecting(shards, sources, source, to.tile);
            lemma_intersecting_are_parts(shards, sources, source, to.tile);
            lemma_stream_mappings(
                shards,
                sources,
                output,
                to.extents,
                stream as u32,
                heads,
                head_width,
                parts,
                0,
                done,
            );
            let more = stream_mappings_from(
                shards,
                parts,
                output,
                extents,
                base,
                head_width,
                0,
                done,
            );
            lemma_output_mappings(
                shards,
                sources,
                output,
                to,
                heads,
                head_width,
                stream + 1,
                end,
                more,
                j,
                element,
            );
            if let Ok(all) = output_mappings_from(
                shards,
                sources,
                output,
                to,
                heads,
                head_width,
                stream,
                end,
                done,
            ) {
                assert forall|m: int| 0 <= m < done.len() implies #[trigger] all[m]
                    == done[m] by {
                    assert(all[m] == more[m]);
                }
                if element.len() == 3 && element[0] == stream && covers(to.extents, element) && 0
                    <= j < sources.len() && sources[j].0 < shards.len() && covers(
                    shards[sources[j].0 as int].extents,
                    joined_element(element, heads, head_width),
                ) {
                    let joined = joined_element(element, heads, head_width);
                    lemma_stream_source(to.extents, stream as u32, heads, head_width, element);
                    assert(to.extents[1].start <= element[1] < to.extents[1].logical_end);
                    assert(to.extents[2].start <= element[2] < to.extents[2].logical_end);
                    assert(covers(source, joined));
                    lemma_intersecting_cover(shards, sources, source, to.tile, j, joined);
                    let i = choose|i: int|
                        0 <= i < parts.len() && covers((#[trigger] parts[i]).extents, joined);
                    lemma_head_mapping(
                        shards,
                        sources,
                        output,
                        to.extents,
                        stream as u32,
                        heads,
                        head_width,
                        parts[i],
                    );
                    let m = done.len() + i;
                    assert(more[done.len() + i - 0] == head_mapping(
                        shards,
                        parts[i],
                        output,
                        extents,
                        base,
                        head_width,
                    ));
                    assert(all[m] == more[m]);
                    assert(fills(all[m], output, element));
                }
            }
        }
    }
}

/// Splitting heads carries elements from their places in the joined tensor, and
/// fills every element of an output that some source holds.
pub proof fn lemma_split_head_mappings(
    shards: Seq<ShardModel>,
    sources: Seq<LowShardId>,
    outputs: Seq<LowShardId>,
    heads: u32,
    head_width: u32,
    at: int,
    done: Seq<(ViewModel, ViewModel)>,
    k: int,
    j: int,
    element: Seq<int>,
)
    requires
        0 <= at <= outputs.len(),
        all_split(shards, sources, heads, head_width, done),
    ensures
        match split_head_mappings_from(
            shards,
            sources,
            outputs,
            heads,
            head_width,
            at,
            done,
        ) {
            Err(_) => true,
            Ok(all) => {
                &&& begins(all, done)
                &&& all_split(shards, sources, heads, head_width, all)
                &&& (at <= k < outputs.len() && outputs[k].0 < shards.len() && 0 <= j
                    < sources.len() && sources[j].0 < shards.len() && covers(
                    shards[outputs[k].0 as int].extents,
                    element,
                ) && covers(
                    shards[sources[j].0 as int].extents,
                    joined_element(element, heads, head_width),
                )) ==> exists|m: int|
                    0 <= m < all.len() && fills(#[trigger] all[m], outputs[k], element)
            },
        },
    decreases outputs.len() - at,
{
    if at < outputs.len() {
        if let Ok(to) = shard_of(shards, outputs[at]) {
            if to.extents.len() == 3 {
                lemma_output_mappings(
                    shards,
                    sources,
                    outputs[at],
                    to,
                    heads,
                    head_width,
                    to.extents[0].start as int,
                    to.extents[0].logical_end as int,
                    done,
                    j,
                    element,
                );
                if let Ok(more) = output_mappings_from(
                    shards,
                    sources,
                    outputs[at],
                    to,
                    heads,
                    head_width,
                    to.extents[0].start as int,
                    to.extents[0].logical_end as int,
                    done,
                ) {
                    lemma_split_head_mappings(
                        shards,
                        sources,
                        outputs,
                        heads,
                        head_width,
                        at + 1,
                        more,
                        k,
                        j,
                        element,
                    );
                    if let Ok(all) = split_head_mappings_from(
                        shards,
                        sources,
                        outputs,
                        heads,
                        head_width,
                        at,
                        done,
                    ) {
                        assert forall|m: int| 0 <= m < done.len() implies #[trigger] all[m]
                            == done[m] by {
                            assert(all[m] == more[m]);
                        }
                        if at == k && outputs[k].0 < shards.len() && 0 <= j < sources.len()
                            && sources[j].0 < shards.len() && covers(to.extents, element)
                            && covers(
                            shards[sources[j].0 as int].extents,
                            joined_element(element, heads, head_width),
                        ) {
                            assert(to.extents[0].start <= element[0]
                                < to.extents[0].logical_end);
                            let m = choose|m: int|
                                0 <= m < more.len() && fills(
                                    #[trigger] more[m],
                                    outputs[at],
                                    element,
                                );
                            assert(all[m] == more[m]);
                        }
                    }
                }
            }
        }
    }
}

/// A mapping that fills an element from its place in the joined tensor is
/// carried out.
pub open spec fn head_received<M: Target>(
    target: &M,
    before: StateModel,
    after: StateModel,
    operation: MidOperation,
    sources: Seq<LowShardId>,
    heads: u32,
    head_width: u32,
    mapping: (ViewModel, ViewModel),
    output: LowShardId,
    element: Seq<int>,
) -> bool {
    &&& fills(mapping, output, element)
    &&& splits(before.shards, sources, heads, head_width, mapping)
    &&& is_delivered(
        target,
        after,
        mapping,
        true,
        result_provenance(operation, WorkReason::OperatorInputs),
    )
}

/// A stream holds its part of the joined tensor: every element of an output
/// that some source holds is carried over from its place there.
pub proof fn lemma_split_heads_deliver_every_element<M: Target>(
    target: &M,
    s: StateModel,
    operation: MidOperation,
    sources: Seq<LowShardId>,
    outputs: Seq<LowShardId>,
    heads: u32,
    head_width: u32,
    k: int,
    j: int,
    element: Seq<int>,
)
    requires
        0 <= k < outputs.len(),
        outputs[k].0 < s.shards.len(),
        0 <= j < sources.len(),
        sources[j].0 < s.shards.len(),
        covers(s.shards[outputs[k].0 as int].extents, element),
        covers(
            s.shards[sources[j].0 as int].extents,
            joined_element(element, heads, head_width),
        ),
    ensures
        match split_heads_logically(target, s, operation, sources, outputs, heads, head_width) {
            Err(_) => true,
            Ok(t) => exists|mapping: (ViewModel, ViewModel)| #[trigger]
                head_received(
                    target,
                    s,
                    t,
                    operation,
                    sources,
                    heads,
                    head_width,
                    mapping,
                    outputs[k],
                    element,
                ),
        },
{
    let provenance = result_provenance(operation, WorkReason::OperatorInputs);
    if let Ok(t) = split_heads_logically(
        target,
        s,
        operation,
        sources,
        outputs,
        heads,
        head_width,
    ) {
        let mappings = split_head_mappings_from(
            s.shards,
            sources,
            outputs,
            heads,
            head_width,
            0,
            Seq::empty(),
        )->Ok_0;
        lemma_split_head_mappings(
            s.shards,
            sources,
            outputs,
            heads,
            head_width,
            0,
            Seq::empty(),
            k,
            j,
            element,
        );
        lemma_mapped_views_are_delivered(
            target,
            s,
            mappings,
            true,
            ExchangeOrder::Semantic,
            provenance,
        );
        let m = choose|m: int|
            0 <= m < mappings.len() && fills(#[trigger] mappings[m], outputs[k], element);
        assert(head_received(
            target,
            s,
            t,
            operation,
            sources,
            heads,
            head_width,
            mappings[m],
            outputs[k],
            element,
        ));
    }
}

} // verus!
