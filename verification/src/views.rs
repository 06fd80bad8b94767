//! Views of whole values that move a factor from one axis to another, carried
//! out as an exchange.

use crate::block_panels::Mapping;
use crate::block_regions::{
    factored_shape, map_window_views, window_view_mappings, AxisFactorView,
};
use crate::blocks::ExpansionError;
use crate::conversion::{lower_mapped_views, unpack_amp};
use crate::deferred::micro_panels;
use crate::heads::{is_left_by_products, is_product_order, result_provenance};
use crate::lookup::value_shards;
use crate::low::{
    ExchangeOrder, LowLoweringError, LowLoweringResult, LowShardId, ShardModel, ShardView,
    ViewModel, WorkProvenance, WorkReason,
};
use crate::mid::MidOperation;
use crate::model::{copy_all, deep, group_deep, same_words};
use crate::state::{did, found_all, shard_of, LoweringState, StateModel, Step};
use crate::target::Target;
use vstd::prelude::*;

verus! {

/// `done` followed by the whole of the shards from `k` on.
pub open spec fn whole_shards_from(
    shards: Seq<ShardModel>,
    ids: Seq<LowShardId>,
    k: int,
    done: Seq<ViewModel>,
) -> Result<Seq<ViewModel>, LowLoweringError>
    decreases ids.len() - k,
{
    if k >= ids.len() {
        Ok(done)
    } else {
        match shard_of(shards, ids[k]) {
            Err(e) => Err(e),
            Ok(shard) => whole_shards_from(
                shards,
                ids,
                k + 1,
                done.push(ViewModel { shard: ids[k], extents: shard.extents }),
            ),
        }
    }
}

/// All outputs from `k` on have the shape of the viewed source.
pub open spec fn have_viewed_shape_from(
    shards: Seq<ShardModel>,
    outputs: Seq<LowShardId>,
    shape: Option<Seq<u32>>,
    k: int,
) -> Result<bool, LowLoweringError>
    decreases outputs.len() - k,
{
    if k >= outputs.len() {
        Ok(true)
    } else {
        match shard_of(shards, outputs[k]) {
            Err(e) => Err(e),
            Ok(output) => if shape == Some(output.tensor_type.shape) {
                have_viewed_shape_from(shards, outputs, shape, k + 1)
            } else {
                Ok(false)
            },
        }
    }
}

/// A view that cannot be followed is a malformed plan.
pub open spec fn viewing_error(e: ExpansionError) -> LowLoweringError {
    match e {
        ExpansionError::IdOverflow => LowLoweringError::IdOverflow,
        _ => LowLoweringError::InvalidOperatorPlan,
    }
}

/// Where the parts of a viewed value come from.
pub open spec fn view_mappings(
    shards: Seq<ShardModel>,
    sources: Seq<LowShardId>,
    outputs: Seq<LowShardId>,
    view: AxisFactorView,
) -> Result<Seq<Mapping>, LowLoweringError> {
    if sources.len() == 0 {
        Err(LowLoweringError::InvalidOperatorPlan)
    } else {
        match shard_of(shards, sources[0]) {
            Err(e) => Err(e),
            Ok(first) => match have_viewed_shape_from(
                shards,
                outputs,
                factored_shape(view, first.tensor_type.shape),
                0,
            ) {
                Err(e) => Err(e),
                Ok(false) => Err(LowLoweringError::InvalidOperatorPlan),
                Ok(true) => match whole_shards_from(shards, sources, 0, Seq::empty()) {
                    Err(e) => Err(e),
                    Ok(views) => match window_view_mappings(
                        shards,
                        views,
                        first.tensor_type.shape,
                        outputs,
                        view,
                        Seq::empty(),
                    ) {
                        Err(e) => Err(viewing_error(e)),
                        Ok(mappings) => Ok(mappings),
                    },
                },
            },
        }
    }
}

/// Carries out a view by coordinates.
pub open spec fn view_logically<M: Target>(
    target: &M,
    s: StateModel,
    operation: MidOperation,
    sources: Seq<LowShardId>,
    outputs: Seq<LowShardId>,
    view: AxisFactorView,
) -> Step {
    match view_mappings(s.shards, sources, outputs, view) {
        Err(e) => Err(e),
        Ok(mappings) => lower_mapped_views(
            target,
            s,
            mappings,
            true,
            ExchangeOrder::Semantic,
            result_provenance(operation, WorkReason::OperatorInputs),
        ),
    }
}

/// Carries out a view where no panel exchange does: results of products are
/// unpacked first.
pub open spec fn view_unpacked<M: Target>(
    target: &M,
    s: StateModel,
    operation: MidOperation,
    source: ShardModel,
    sources: Seq<LowShardId>,
    outputs: Seq<LowShardId>,
    view: AxisFactorView,
) -> Step {
    if is_product_order(source.tensor_type.format.layout.order) {
        match unpack_amp(
            s,
            operation.inputs@[0],
            result_provenance(operation, WorkReason::OperatorKernel),
        ) {
            Err(e) => Err(e),
            Ok((_, None)) => Err(LowLoweringError::InvalidOperatorPlan),
            Ok((next, Some(staging))) => view_logically(
                target,
                next,
                operation,
                staging,
                outputs,
                view,
            ),
        }
    } else {
        view_logically(target, s, operation, sources, outputs, view)
    }
}

/// Carries out a view: panel by panel where both sides can, and else by
/// coordinates.
pub open spec fn lower_view<M: Target>(
    target: &M,
    s: StateModel,
    operation: MidOperation,
    view: AxisFactorView,
) -> Step {
    if operation.inputs@.len() != 1 {
        Err(LowLoweringError::InvalidOperatorPlan)
    } else if operation.results@.len() != 1 {
        Err(LowLoweringError::ResultArity)
    } else {
        match value_shards(s, operation.inputs@[0]) {
            Err(e) => Err(e),
            Ok(sources) => match shard_of(s.shards, sources[0]) {
                Err(e) => Err(e),
                Ok(from) => match value_shards(s, operation.results@[0]) {
                    Err(e) => Err(e),
                    Ok(outputs) => match shard_of(s.shards, outputs[0]) {
                        Err(e) => Err(e),
                        Ok(to) => if target.spec_exchanges_panels(
                            from.tensor_type.format,
                            to.tensor_type.format,
                        ) {
                            match view_mappings(s.shards, sources, outputs, view) {
                                Err(e) => Err(e),
                                Ok(mappings) => match micro_panels(target, s.shards, mappings) {
                                    Err(e) => Err(e),
                                    Ok(Some(pieces)) => lower_mapped_views(
                                        target,
                                        s,
                                        pieces,
                                        false,
                                        ExchangeOrder::Physical,
                                        result_provenance(operation, WorkReason::OperatorInputs),
                                    ),
                                    Ok(None) => view_unpacked(
                                        target,
                                        s,
                                        operation,
                                        from,
                                        sources,
                                        outputs,
                                        view,
                                    ),
                                },
                            }
                        } else {
                            view_unpacked(target, s, operation, from, sources, outputs, view)
                        },
                    },
                },
            },
        }
    }
}

fn viewing_failed(e: ExpansionError) -> (r: LowLoweringError)
    ensures
        r == viewing_error(e),
{
    match e {
        ExpansionError::IdOverflow => LowLoweringError::IdOverflow,
        _ => LowLoweringError::InvalidOperatorPlan,
    }
}

impl LoweringState {
    fn whole_shards(&self, ids: &Vec<LowShardId>) -> (r: LowLoweringResult<Vec<ShardView>>)
        ensures
            found_all(r, whole_shards_from(self@.shards, ids@, 0, Seq::empty())),
    {
        broadcast use group_deep;

        let mut views: Vec<ShardView> = Vec::new();
        assert(deep(views@) =~= Seq::<ViewModel>::empty());
        let mut k: usize = 0;
        while k < ids.len()
            invariant
                k <= ids@.len(),
                whole_shards_from(self@.shards, ids@, 0, Seq::empty()) == whole_shards_from(
                    self@.shards,
                    ids@,
                    k as int,
                    deep(views@),
                ),
            decreases ids@.len() - k,
        {
            let shard = self.shard(ids[k])?;
            let view = ShardView { shard: ids[k], extents: copy_all(shard.extents.as_slice()) };
            views.push(view);
            k += 1;
        }
        Ok(views)
    }

    /// Where the parts of a viewed value come from.
    pub fn view_mappings(
        &self,
        sources: &Vec<LowShardId>,
        outputs: &Vec<LowShardId>,
        view: AxisFactorView,
    ) -> (r: LowLoweringResult<Vec<(ShardView, ShardView)>>)
        ensures
            found_all(r, view_mappings(self@.shards, sources@, outputs@, view)),
    {
        broadcast use group_deep;

        if sources.len() == 0 {
            return Err(LowLoweringError::InvalidOperatorPlan);
        }
        let first = self.shard(sources[0])?;
        let shape = view.output_shape(first.tensor_type.shape.0.as_slice());
        let ghost expected = factored_shape(view, first@.tensor_type.shape);
        let mut k: usize = 0;
        while k < outputs.len()
            invariant
                k <= outputs@.len(),
                have_viewed_shape_from(self@.shards, outputs@, expected, 0)
                    == have_viewed_shape_from(self@.shards, outputs@, expected, k as int),
            decreases outputs@.len() - k,
        {
            let output = self.shard(outputs[k])?;
            let fits = match &shape {
                Some(shape) => same_words(
                    shape.as_slice(),
                    output.tensor_type.shape.0.as_slice(),
                ),
                None => false,
            };
            if !fits {
                return Err(LowLoweringError::InvalidOperatorPlan);
            }
            k += 1;
        }
        let views = self.whole_shards(sources)?;
        let offsets: Vec<u32> = Vec::new();
        assert(offsets@ =~= Seq::<u32>::empty());
        match map_window_views(
            &self.shards,
            &views,
            first.tensor_type.shape.0.as_slice(),
            outputs,
            view,
            offsets.as_slice(),
        ) {
            Ok(mappings) => Ok(mappings),
            Err(e) => Err(viewing_failed(e)),
        }
    }

    /// Carries out a view of a value.
    pub fn lower_view<M: Target>(
        &mut self,
        target: &M,
        operation: &MidOperation,
        view: AxisFactorView,
    ) -> (r: LowLoweringResult<()>)
        ensures
            did(r, final(self)@, lower_view(target, old(self)@, *operation, view)),
    {
        if operation.inputs.len() != 1 {
            return Err(LowLoweringError::InvalidOperatorPlan);
        }
        if operation.results.len() != 1 {
            return Err(LowLoweringError::ResultArity);
        }
        let input = operation.inputs[0];
        let result = operation.results[0];
        let sources = self.value_shards(input)?;
        let from = self.shard(sources[0])?;
        let outputs = self.value_shards(result)?;
        let to = self.shard(outputs[0])?;
        let order = from.tensor_type.format.layout.order;
        let exchange = WorkProvenance {
            operation: operation.source,
            value: Some(result),
            reason: WorkReason::OperatorInputs,
        };
        if target.supports_f16_micro_panel_exchange(
            &from.tensor_type.format,
            &to.tensor_type.format,
        ) {
            let mappings = self.view_mappings(&sources, &outputs, view)?;
            match self.f16_micro_panel_mappings(target, &mappings)? {
                Some(pieces) => {
                    return self.lower_mapped_views(
                        target,
                        pieces,
                        false,
                        ExchangeOrder::Physical,
                        exchange,
                    );
                },
                None => {},
            }
        }
        let row_major = if is_left_by_products(order) {
            let kernel = WorkProvenance {
                operation: operation.source,
                value: Some(result),
                reason: WorkReason::OperatorKernel,
            };
            match self.unpack_amp_to_row_major(input, kernel)? {
                Some(staging) => staging,
                None => {
                    return Err(LowLoweringError::InvalidOperatorPlan);
                },
            }
        } else {
            sources
        };
        let mappings = self.view_mappings(&row_major, &outputs, view)?;
        self.lower_mapped_views(target, mappings, true, ExchangeOrder::Semantic, exchange)
    }
}

} // verus!
