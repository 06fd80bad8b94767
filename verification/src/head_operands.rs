//! What splitting heads takes apart: the operation's own input, into as many
//! heads as the operator has.

use crate::extents::covers;
use crate::head_coverage::{
    head_received, joined_element, lemma_split_heads_deliver_every_element,
};
use crate::heads::{is_product_order, lower_split_heads};
use crate::low::ViewModel;
use crate::mid::{MidOperation, MidOperator};
use crate::state::StateModel;
use crate::target::Target;
use vstd::prelude::*;

verus! {

/// Splitting heads where no panels are exchanged and nothing is unpacked first
/// carries every element of every shard of the result over from a shard of the
/// operation's input. The element stands there in the joined tensor, whose last
/// axis holds the heads side by side, all of the same width.
pub proof fn lemma_heads_are_split_from_the_input<M: Target>(
    target: &M,
    s: StateModel,
    operation: MidOperation,
    heads: u32,
    k: int,
    j: int,
    element: Seq<int>,
)
    requires
        heads > 0,
        operation.inputs@.len() == 1,
        operation.results@.len() == 1,
        operation.inputs@[0].0 < s.canonical.len(),
        operation.results@[0].0 < s.canonical.len(),
        ({
            let sources = s.canonical[operation.inputs@[0].0 as int];
            let outputs = s.canonical[operation.results@[0].0 as int];
            let from = s.shards[sources[0].0 as int].tensor_type;
            let to = s.shards[outputs[0].0 as int].tensor_type;
            &&& 0 <= k < outputs.len()
            &&& outputs[k].0 < s.shards.len()
            &&& 0 <= j < sources.len()
            &&& sources[j].0 < s.shards.len()
            &&& !target.spec_exchanges_panels(from.format, to.format)
            &&& !is_product_order(from.format.layout.order)
            &&& covers(s.shards[outputs[k].0 as int].extents, element)
            &&& covers(
                s.shards[sources[j].0 as int].extents,
                joined_element(element, heads, (from.shape[2] / heads) as u32),
            )
        }),
    ensures
        match lower_split_heads(target, s, operation, MidOperator::SplitHeads { heads }) {
            Err(_) => true,
            Ok(t) => {
                let sources = s.canonical[operation.inputs@[0].0 as int];
                let outputs = s.canonical[operation.results@[0].0 as int];
                let width = s.shards[sources[0].0 as int].tensor_type.shape[2];
                &&& width % heads == 0
                &&& exists|mapping: (ViewModel, ViewModel)| #[trigger]
                    head_received(
                        target,
                        s,
                        t,
                        operation,
                        sources,
                        heads,
                        (width / heads) as u32,
                        mapping,
                        outputs[k],
                        element,
                    )
            },
        },
{
    let sources = s.canonical[operation.inputs@[0].0 as int];
    let outputs = s.canonical[operation.results@[0].0 as int];
    let width = s.shards[sources[0].0 as int].tensor_type.shape[2];
    lemma_split_heads_deliver_every_element(
        target,
        s,
        operation,
        sources,
        outputs,
        heads,
        (width / heads) as u32,
        k,
        j,
        element,
    );
}

} // verus!
