//! Consumer-sized materialization of values whose views were deferred.

use crate::copies::{spans_of, with_view_copies};
use crate::extents::{panel_mappings, split_mapping_at_panel_boundaries};
use crate::fragments::{are_word_aligned, sat_add, sum_bytes, words_match};
use crate::lookup::{
    deferred_of, deferred_root, intersecting, resides, value_shards,
};
use crate::low::{
    ExchangeOrder, LocalCopy, LowLoweringError, LowLoweringResult, LowShardId, ShardModel,
    ShardView, ViewModel,
};
use crate::mid::{DeferredTransform, MidValueId};
use crate::model::{Model, deep, group_deep};
use crate::phase::{add_transfer, add_transfer_to, transfers_nonempty};
use crate::state::{
    found_all, shard_of, LoweringState, StateModel, Transfers, TransfersModel,
};
use crate::target::Target;
use crate::tensor::ShardExtent;
use vstd::prelude::*;

verus! {

/// Part of a tensor of attention streams: one stream, and ranges of its rows
/// and columns.
#[derive(Clone, Copy, Debug, PartialEq, Eq, Structural)]
pub struct Panel {
    pub stream: u32,
    pub row_start: u32,
    pub rows: u32,
    pub column_start: u32,
    pub columns: u32,
}

impl Panel {
    /// The ends of all ranges can be represented.
    pub open spec fn representable(self) -> bool {
        &&& self.stream + 1 <= u32::MAX
        &&& self.row_start + self.rows <= u32::MAX
        &&& self.column_start + self.columns <= u32::MAX
    }

    pub fn is_representable(&self) -> (r: bool)
        ensures
            r == self.representable(),
    {
        self.stream < 0xffff_ffff && self.row_start as u64 + self.rows as u64 <= 0xffff_ffff
            && self.column_start as u64 + self.columns as u64 <= 0xffff_ffff
    }
}

/// A range without padding.
pub open spec fn plain(axis: u16, start: u32, end: u32) -> ShardExtent {
    ShardExtent { axis, start, logical_end: end, physical_end: end }
}

/// Where a panel of the transformed tensor stands in the tensor it is a view
/// of. None, where the shapes do not belong together or the panel is not part
/// of the transformed tensor.
pub open spec fn panel_source(
    transform: DeferredTransform,
    source_shape: Seq<u32>,
    shape: Seq<u32>,
    panel: Panel,
) -> Option<Seq<ShardExtent>> {
    let DeferredTransform::SplitLastAxisIntoLeading { parts } = transform;
    if parts == 0 || source_shape.len() != 3 || shape.len() != 3 || source_shape[2] % parts != 0
        || shape[0] != source_shape[0] * parts || shape[1] != source_shape[1] || shape[2]
        != source_shape[2] / parts || panel.stream >= shape[0] || panel.row_start + panel.rows
        > shape[1] || panel.column_start + panel.columns > shape[2] {
        None
    } else {
        let batch = (panel.stream / parts) as u32;
        let base = (panel.stream % parts) * shape[2];
        Some(
            seq![
                plain(0, batch, (batch + 1) as u32),
                plain(1, panel.row_start, (panel.row_start + panel.rows) as u32),
                plain(
                    2,
                    (base + panel.column_start) as u32,
                    (base + panel.column_start + panel.columns) as u32,
                ),
            ],
        )
    }
}

/// The panel of every stream of a split tensor lies inside the joined tensor.
proof fn lemma_panel_columns_fit(width: int, parts: int, columns: int, stream: int, end: int)
    requires
        parts > 0,
        0 <= stream,
        0 <= end <= width,
        width == columns / parts,
        columns % parts == 0,
        0 <= columns,
    ensures
        0 <= (stream % parts) * width,
        (stream % parts) * width + end <= columns,
        stream / parts <= stream,
{
    vstd::arithmetic::div_mod::lemma_fundamental_div_mod(columns, parts);
    assert(0 <= stream % parts <= parts - 1);
    let head = stream % parts;
    assert(head * width + end <= parts * width) by (nonlinear_arith)
        requires
            0 <= head <= parts - 1,
            0 <= end <= width,
    ;
    assert(0 <= head * width) by (nonlinear_arith)
        requires
            0 <= head,
            0 <= width,
    ;
    assert(stream / parts <= stream) by (nonlinear_arith)
        requires
            parts > 0,
            stream >= 0,
    ;
}

fn push_plain(extents: &mut Vec<ShardExtent>, axis: u16, start: u32, end: u32)
    ensures
        final(extents)@ == old(extents)@.push(plain(axis, start, end)),
{
    extents.push(ShardExtent { axis, start, logical_end: end, physical_end: end });
}

fn panel_source_of(
    transform: DeferredTransform,
    source_shape: &Vec<u32>,
    shape: &Vec<u32>,
    panel: Panel,
) -> (r: Option<Vec<ShardExtent>>)
    requires
        panel.representable(),
    ensures
        match r {
            Some(extents) => panel_source(transform, source_shape@, shape@, panel) == Some(
                extents@,
            ),
            None => panel_source(transform, source_shape@, shape@, panel) is None,
        },
{
    let DeferredTransform::SplitLastAxisIntoLeading { parts } = transform;
    if parts == 0 || source_shape.len() != 3 || shape.len() != 3 {
        return None;
    }
    proof {
        assert(0 <= source_shape@[0] * parts <= 0xffff_ffff * 0xffff_ffff) by (nonlinear_arith)
            requires
                0 <= source_shape@[0] <= 0xffff_ffff,
                0 <= parts <= 0xffff_ffff,
        ;
    }
    if source_shape[2] % parts != 0 || shape[0] as u64 != source_shape[0] as u64 * parts as u64
        || shape[1] != source_shape[1] || shape[2] != source_shape[2] / parts || panel.stream
        >= shape[0] || panel.row_start + panel.rows > shape[1] || panel.column_start
        + panel.columns > shape[2] {
        return None;
    }
    proof {
        lemma_panel_columns_fit(
            shape@[2] as int,
            parts as int,
            source_shape@[2] as int,
            panel.stream as int,
            panel.column_start + panel.columns,
        );
    }
    let batch: u32 = panel.stream / parts;
    let base: u32 = (panel.stream % parts) * shape[2];
    let mut extents: Vec<ShardExtent> = Vec::new();
    push_plain(&mut extents, 0, batch, batch + 1);
    push_plain(&mut extents, 1, panel.row_start, panel.row_start + panel.rows);
    push_plain(
        &mut extents,
        2,
        base + panel.column_start,
        base + panel.column_start + panel.columns,
    );
    proof {
        let expected = panel_source(transform, source_shape@, shape@, panel)->Some_0;
        assert(extents@ =~= expected);
    }
    Some(extents)
}

/// One axis of a part of a panel, relative to the panel.
pub open spec fn relative(axis: u16, part: ShardExtent, base: u32) -> ShardExtent {
    plain(axis, (part.start - base) as u32, (part.logical_end - base) as u32)
}

/// Useful elements of a range.
pub open spec fn width(extent: ShardExtent) -> u64 {
    if extent.logical_end >= extent.start {
        (extent.logical_end - extent.start) as u64
    } else {
        0
    }
}

/// `done` followed by the mappings of the parts from position `k` on into the
/// destination. The parts must cover the whole panel.
pub open spec fn part_mappings_from(
    parts: Seq<ViewModel>,
    base: Seq<ShardExtent>,
    destination: LowShardId,
    elements: u64,
    k: int,
    covered: u64,
    done: Seq<(ViewModel, ViewModel)>,
) -> Result<Seq<(ViewModel, ViewModel)>, LowLoweringError>
    decreases parts.len() - k,
{
    if k >= parts.len() {
        if covered == elements {
            Ok(done)
        } else {
            Err(LowLoweringError::InvalidOperatorPlan)
        }
    } else {
        let part = parts[k].extents;
        if part.len() != 3 || part[1].start < base[1].start || part[2].start < base[2].start
            || part[1].logical_end < base[1].start || part[2].logical_end < base[2].start {
            Err(LowLoweringError::InvalidOperatorPlan)
        } else {
            part_mappings_from(
                parts,
                base,
                destination,
                elements,
                k + 1,
                sat_add(covered, (width(part[1]) * width(part[2])) as u64),
                done.push(
                    (
                        parts[k],
                        ViewModel {
                            shard: destination,
                            extents: seq![
                                relative(0, part[1], base[1].start),
                                relative(1, part[2], base[2].start),
                            ],
                        },
                    ),
                ),
            )
        }
    }
}

/// The mappings that materialize a panel of a deferred value.
pub open spec fn deferred_panel_mappings(
    s: StateModel,
    value: MidValueId,
    panel: Panel,
    destination: LowShardId,
) -> Result<Seq<(ViewModel, ViewModel)>, LowLoweringError> {
    match deferred_root(s, value) {
        None => Err(LowLoweringError::InvalidOperatorPlan),
        Some(root) => match deferred_of(s, root) {
            None => Err(LowLoweringError::InvalidOperatorPlan),
            Some(deferred) => match value_shards(s, value) {
                Err(e) => Err(e),
                Ok(ids) => match shard_of(s.shards, ids[0]) {
                    Err(e) => Err(e),
                    Ok(logical) => if deferred.shards.len() == 0 {
                        Err(LowLoweringError::InvalidOperatorPlan)
                    } else {
                        match shard_of(s.shards, deferred.shards[0]) {
                            Err(e) => Err(e),
                            Ok(source) => if !panel.representable() {
                                Err(LowLoweringError::IdOverflow)
                            } else {
                                match panel_source(
                                    deferred.transform,
                                    source.tensor_type.shape,
                                    logical.tensor_type.shape,
                                    panel,
                                ) {
                                    None => Err(LowLoweringError::InvalidOperatorPlan),
                                    Some(base) => match shard_of(s.shards, destination) {
                                        Err(e) => Err(e),
                                        Ok(into) => part_mappings_from(
                                            intersecting(
                                                s.shards,
                                                deferred.shards,
                                                base,
                                                into.tile,
                                            ),
                                            base,
                                            destination,
                                            (panel.rows * panel.columns) as u64,
                                            0,
                                            0,
                                            Seq::empty(),
                                        ),
                                    },
                                }
                            },
                        }
                    },
                },
            },
        },
    }
}

/// `done` followed by the pieces from `k` on, if all can be exchanged word by
/// word in address order.
pub open spec fn checked_pieces_from<M: Target>(
    target: &M,
    shards: Seq<ShardModel>,
    pieces: Seq<(ViewModel, ViewModel)>,
    k: int,
    done: Seq<(ViewModel, ViewModel)>,
) -> Result<Option<Seq<(ViewModel, ViewModel)>>, LowLoweringError>
    decreases pieces.len() - k,
{
    if k >= pieces.len() {
        Ok(Some(done))
    } else {
        match spans_of(target, shards, pieces[k].0, ExchangeOrder::Physical) {
            Err(e) => Err(e),
            Ok(a) => match spans_of(target, shards, pieces[k].1, ExchangeOrder::Physical) {
                Err(e) => Err(e),
                Ok(b) => if words_match(a, b) {
                    checked_pieces_from(target, shards, pieces, k + 1, done.push(pieces[k]))
                } else {
                    Ok(None)
                },
            },
        }
    }
}

/// `done` followed by the mappings from `k` on, divided at panel boundaries,
/// if all the pieces can be exchanged word by word in address order.
pub open spec fn micro_panels_from<M: Target>(
    target: &M,
    shards: Seq<ShardModel>,
    mappings: Seq<(ViewModel, ViewModel)>,
    k: int,
    done: Seq<(ViewModel, ViewModel)>,
) -> Result<Option<Seq<(ViewModel, ViewModel)>>, LowLoweringError>
    decreases mappings.len() - k,
{
    if k >= mappings.len() {
        Ok(Some(done))
    } else {
        match shard_of(shards, mappings[k].0.shard) {
            Err(e) => Err(e),
            Ok(from) => match shard_of(shards, mappings[k].1.shard) {
                Err(e) => Err(e),
                Ok(to) => match panel_mappings(from, mappings[k].0, to, mappings[k].1) {
                    Err(e) => Err(e),
                    Ok(pieces) => match checked_pieces_from(target, shards, pieces, 0, done) {
                        Err(e) => Err(e),
                        Ok(None) => Ok(None),
                        Ok(Some(more)) => micro_panels_from(target, shards, mappings, k + 1, more),
                    },
                },
            },
        }
    }
}

/// The mappings divided at panel boundaries, if that permits a word exchange in
/// address order.
pub open spec fn micro_panels<M: Target>(
    target: &M,
    shards: Seq<ShardModel>,
    mappings: Seq<(ViewModel, ViewModel)>,
) -> Result<Option<Seq<(ViewModel, ViewModel)>>, LowLoweringError> {
    micro_panels_from(target, shards, mappings, 0, Seq::empty())
}

/// Transfers between tiles and copies inside tiles.
pub type Movement = (TransfersModel, Seq<(u16, LocalCopy)>);

/// The movement with that of the mappings from `k` on: a copy where the source
/// is on the tile, and a transfer where it is not.
pub open spec fn place_from<M: Target>(
    target: &M,
    shards: Seq<ShardModel>,
    mappings: Seq<(ViewModel, ViewModel)>,
    tile: u16,
    order: ExchangeOrder,
    k: int,
    done: Movement,
) -> Result<Movement, LowLoweringError>
    decreases mappings.len() - k,
{
    if k >= mappings.len() {
        Ok(done)
    } else if resides(shards, mappings[k].0.shard, tile) {
        match with_view_copies(
            target,
            shards,
            mappings[k].0,
            mappings[k].1,
            tile,
            order,
            done.1,
        ) {
            Err(e) => Err(e),
            Ok(copies) => place_from(
                target,
                shards,
                mappings,
                tile,
                order,
                k + 1,
                (done.0, copies),
            ),
        }
    } else {
        place_from(
            target,
            shards,
            mappings,
            tile,
            order,
            k + 1,
            (add_transfer(done.0, mappings[k].0, mappings[k].1), done.1),
        )
    }
}

/// The movement with that of the panel mappings from `k` on, each divided at
/// panel boundaries if they move in address order.
pub open spec fn gather_from<M: Target>(
    target: &M,
    shards: Seq<ShardModel>,
    mappings: Seq<(ViewModel, ViewModel)>,
    tile: u16,
    order: ExchangeOrder,
    k: int,
    done: Movement,
) -> Result<Movement, LowLoweringError>
    decreases mappings.len() - k,
{
    if k >= mappings.len() {
        Ok(done)
    } else {
        let pieces = match order {
            ExchangeOrder::Semantic => Ok(Some(seq![mappings[k]])),
            ExchangeOrder::Physical => micro_panels(target, shards, seq![mappings[k]]),
        };
        match pieces {
            Err(e) => Err(e),
            Ok(None) => Err(LowLoweringError::InvalidOperatorPlan),
            Ok(Some(pieces)) => match place_from(target, shards, pieces, tile, order, 0, done) {
                Err(e) => Err(e),
                Ok(more) => gather_from(target, shards, mappings, tile, order, k + 1, more),
            },
        }
    }
}

/// The movement with that which materializes a panel of a deferred value.
pub open spec fn gather_deferred_panel<M: Target>(
    target: &M,
    s: StateModel,
    value: MidValueId,
    panel: Panel,
    destination: LowShardId,
    order: ExchangeOrder,
    done: Movement,
) -> Result<Movement, LowLoweringError> {
    match shard_of(s.shards, destination) {
        Err(e) => Err(e),
        Ok(into) => match deferred_panel_mappings(s, value, panel, destination) {
            Err(e) => Err(e),
            Ok(mappings) => gather_from(target, s.shards, mappings, into.tile, order, 0, done),
        },
    }
}

/// Whether a deferred value can be exchanged panel by panel in address order:
/// its rows are whole words, and both formats have the same panels.
pub open spec fn supports_physical_exchange<M: Target>(
    target: &M,
    s: StateModel,
    value: MidValueId,
    destination: LowShardId,
) -> bool {
    match deferred_root(s, value) {
        None => false,
        Some(root) => match deferred_of(s, root) {
            None => false,
            Some(deferred) => match value_shards(s, value) {
                Err(_) => false,
                Ok(ids) => {
                    &&& deferred.shards.len() > 0
                    &&& deferred.shards[0].0 < s.shards.len()
                    &&& destination.0 < s.shards.len()
                    &&& ids[0].0 < s.shards.len()
                    &&& s.shards[ids[0].0 as int].tensor_type.shape.len() > 0
                    &&& s.shards[ids[0].0 as int].tensor_type.shape.last() % 2 == 0
                    &&& target.spec_exchanges_panels(
                        s.shards[deferred.shards[0].0 as int].tensor_type.format,
                        s.shards[destination.0 as int].tensor_type.format,
                    )
                },
            },
        },
    }
}

/// `r` is the expected list of mappings, or none, or the expected error.
pub open spec fn mappings_are(
    r: LowLoweringResult<Option<Vec<(ShardView, ShardView)>>>,
    expected: Result<Option<Seq<(ViewModel, ViewModel)>>, LowLoweringError>,
) -> bool {
    match r {
        Ok(Some(mappings)) => expected == Ok::<
            Option<Seq<(ViewModel, ViewModel)>>,
            LowLoweringError,
        >(Some(deep(mappings@))),
        Ok(None) => expected == Ok::<Option<Seq<(ViewModel, ViewModel)>>, LowLoweringError>(None),
        Err(e) => expected == Err::<Option<Seq<(ViewModel, ViewModel)>>, LowLoweringError>(e),
    }
}

/// On success the movement became `transfers` and `copies`.
pub open spec fn moved(
    r: LowLoweringResult<()>,
    transfers: TransfersModel,
    copies: Seq<(u16, LocalCopy)>,
    expected: Result<Movement, LowLoweringError>,
) -> bool {
    match r {
        Ok(_) => expected == Ok::<Movement, LowLoweringError>((transfers, copies)),
        Err(e) => expected == Err::<Movement, LowLoweringError>(e),
    }
}

impl LoweringState {
    pub fn deferred_panel_mappings(
        &self,
        value: MidValueId,
        panel: Panel,
        destination: LowShardId,
    ) -> (r: LowLoweringResult<Vec<(ShardView, ShardView)>>)
        ensures
            found_all(r, deferred_panel_mappings(self@, value, panel, destination)),
    {
        broadcast use group_deep;

        let root = match self.deferred_root(value) {
            Some(root) => root,
            None => {
                return Err(LowLoweringError::InvalidOperatorPlan);
            },
        };
        let deferred = match self.deferred_of(root) {
            Some(deferred) => deferred,
            None => {
                return Err(LowLoweringError::InvalidOperatorPlan);
            },
        };
        let ids = self.value_shards(value)?;
        let logical = self.shard(ids[0])?;
        if deferred.shards.len() == 0 {
            return Err(LowLoweringError::InvalidOperatorPlan);
        }
        let source = self.shard(deferred.shards[0])?;
        if !panel.is_representable() {
            return Err(LowLoweringError::IdOverflow);
        }
        let base = match panel_source_of(
            deferred.transform,
            &source.tensor_type.shape.0,
            &logical.tensor_type.shape.0,
            panel,
        ) {
            Some(base) => base,
            None => {
                return Err(LowLoweringError::InvalidOperatorPlan);
            },
        };
        let tile = match self.shard(destination) {
            Ok(shard) => shard.tile,
            Err(e) => {
                return Err(e);
            },
        };
        let parts = self.intersecting_shard_set(&deferred.shards, base.as_slice(), tile);
        let ghost model = deep(parts@);
        proof {
            assert(0 <= panel.rows * panel.columns <= 0xffff_ffff * 0xffff_ffff)
                by (nonlinear_arith)
                requires
                    0 <= panel.rows <= 0xffff_ffff,
                    0 <= panel.columns <= 0xffff_ffff,
            ;
        }
        let elements: u64 = panel.rows as u64 * panel.columns as u64;
        let mut covered: u64 = 0;
        let mut mappings: Vec<(ShardView, ShardView)> = Vec::new();
        let mut k: usize = 0;
        while k < parts.len()
            invariant
                k <= parts@.len(),
                base@.len() == 3,
                part_mappings_from(model, base@, destination, elements, 0, 0, Seq::empty())
                    == part_mappings_from(
                    model,
                    base@,
                    destination,
                    elements,
                    k as int,
                    covered,
                    deep(mappings@),
                ),
            decreases parts@.len() - k,
        {
            let part = &parts[k];
            assert(model[k as int] == part@);
            if part.extents.len() != 3 {
                return Err(LowLoweringError::InvalidOperatorPlan);
            }
            let rows: ShardExtent = part.extents[1];
            let columns: ShardExtent = part.extents[2];
            let row_base: u32 = base[1].start;
            let column_base: u32 = base[2].start;
            if rows.start < row_base || columns.start < column_base || rows.logical_end < row_base
                || columns.logical_end < column_base {
                return Err(LowLoweringError::InvalidOperatorPlan);
            }
            let mut extents: Vec<ShardExtent> = Vec::new();
            push_plain(&mut extents, 0, rows.start - row_base, rows.logical_end - row_base);
            push_plain(
                &mut extents,
                1,
                columns.start - column_base,
                columns.logical_end - column_base,
            );
            assert(extents@ =~= seq![
                relative(0, rows, row_base),
                relative(1, columns, column_base),
            ]);
            let height: u64 = rows.logical_end.saturating_sub(rows.start) as u64;
            let breadth: u64 = columns.logical_end.saturating_sub(columns.start) as u64;
            proof {
                assert(0 <= height * breadth <= 0xffff_ffff * 0xffff_ffff) by (nonlinear_arith)
                    requires
                        0 <= height <= 0xffff_ffff,
                        0 <= breadth <= 0xffff_ffff,
                ;
            }
            covered = covered.saturating_add(height * breadth);
            let into = ShardView { shard: destination, extents };
            mappings.push((part.duplicate(), into));
            k += 1;
        }
        if covered != elements {
            return Err(LowLoweringError::InvalidOperatorPlan);
        }
        Ok(mappings)
    }

    pub fn f16_micro_panel_mappings<M: Target>(
        &self,
        target: &M,
        mappings: &Vec<(ShardView, ShardView)>,
    ) -> (r: LowLoweringResult<Option<Vec<(ShardView, ShardView)>>>)
        ensures
            mappings_are(r, micro_panels(target, self@.shards, deep(mappings@))),
    {
        broadcast use group_deep;

        let ghost model = deep(mappings@);
        let mut split: Vec<(ShardView, ShardView)> = Vec::new();
        let mut k: usize = 0;
        while k < mappings.len()
            invariant
                k <= mappings@.len(),
                micro_panels(target, self@.shards, model) == micro_panels_from(
                    target,
                    self@.shards,
                    model,
                    k as int,
                    deep(split@),
                ),
            decreases mappings@.len() - k,
        {
            let (source, destination) = &mappings[k];
            assert(model[k as int] == (source@, destination@));
            let from = self.shard(source.shard)?;
            let to = self.shard(destination.shard)?;
            let pieces = split_mapping_at_panel_boundaries(from, source, to, destination)?;
            let ghost piece_model = deep(pieces@);
            let ghost before = deep(split@);
            let mut p: usize = 0;
            while p < pieces.len()
                invariant
                    p <= pieces@.len(),
                    checked_pieces_from(target, self@.shards, piece_model, 0, before)
                        == checked_pieces_from(
                        target,
                        self@.shards,
                        piece_model,
                        p as int,
                        deep(split@),
                    ),
                decreases pieces@.len() - p,
            {
                let (piece, into) = &pieces[p];
                assert(piece_model[p as int] == (piece@, into@));
                let a = self.spans_of(target, piece, ExchangeOrder::Physical)?;
                let b = self.spans_of(target, into, ExchangeOrder::Physical)?;
                if !are_word_aligned(&a) || !are_word_aligned(&b) || sum_bytes(&a) != sum_bytes(
                    &b,
                ) {
                    return Ok(None);
                }
                split.push((piece.duplicate(), into.duplicate()));
                p += 1;
            }
            k += 1;
        }
        Ok(Some(split))
    }

    pub fn deferred_supports_physical_exchange<M: Target>(
        &self,
        target: &M,
        value: MidValueId,
        destination: LowShardId,
    ) -> (r: bool)
        ensures
            r == supports_physical_exchange(target, self@, value, destination),
    {
        broadcast use group_deep;

        let root = match self.deferred_root(value) {
            Some(root) => root,
            None => {
                return false;
            },
        };
        let deferred = match self.deferred_of(root) {
            Some(deferred) => deferred,
            None => {
                return false;
            },
        };
        let ids = match self.value_shards(value) {
            Ok(ids) => ids,
            Err(_) => {
                return false;
            },
        };
        if deferred.shards.len() == 0 {
            return false;
        }
        let (source, into, logical) = match (
            self.shard(deferred.shards[0]),
            self.shard(destination),
            self.shard(ids[0]),
        ) {
            (Ok(source), Ok(into), Ok(logical)) => (source, into, logical),
            _ => {
                return false;
            },
        };
        let shape = &logical.tensor_type.shape.0;
        shape.len() > 0 && shape[shape.len() - 1] % 2 == 0
            && target.supports_f16_micro_panel_exchange(
            &source.tensor_type.format,
            &into.tensor_type.format,
        )
    }

    /// Adds the movement of mappings onto one tile.
    pub fn place_mappings<M: Target>(
        &self,
        target: &M,
        mappings: &Vec<(ShardView, ShardView)>,
        tile: u16,
        order: ExchangeOrder,
        transfers: &mut Transfers,
        copies: &mut Vec<(u16, LocalCopy)>,
    ) -> (r: LowLoweringResult<()>)
        ensures
            moved(
                r,
                final(transfers)@,
                final(copies)@,
                place_from(
                    target,
                    self@.shards,
                    deep(mappings@),
                    tile,
                    order,
                    0,
                    (old(transfers)@, old(copies)@),
                ),
            ),
            transfers_nonempty(old(transfers)@) ==> transfers_nonempty(final(transfers)@),
    {
        broadcast use group_deep;

        let ghost model = deep(mappings@);
        let ghost start = (transfers@, copies@);
        let mut k: usize = 0;
        while k < mappings.len()
            invariant
                k <= mappings@.len(),
                place_from(target, self@.shards, model, tile, order, 0, start) == place_from(
                    target,
                    self@.shards,
                    model,
                    tile,
                    order,
                    k as int,
                    (transfers@, copies@),
                ),
                transfers_nonempty(start.0) ==> transfers_nonempty(transfers@),
            decreases mappings@.len() - k,
        {
            let (source, destination) = &mappings[k];
            assert(model[k as int] == (source@, destination@));
            if self.resides(source.shard, tile) {
                self.append_view_copies(target, source, destination, tile, order, copies)?;
            } else {
                add_transfer_to(transfers, source.duplicate(), destination.duplicate());
            }
            k += 1;
        }
        Ok(())
    }

    pub fn gather_deferred_panel<M: Target>(
        &self,
        target: &M,
        value: MidValueId,
        panel: Panel,
        destination: LowShardId,
        order: ExchangeOrder,
        transfers: &mut Transfers,
        copies: &mut Vec<(u16, LocalCopy)>,
    ) -> (r: LowLoweringResult<()>)
        ensures
            moved(
                r,
                final(transfers)@,
                final(copies)@,
                gather_deferred_panel(
                    target,
                    self@,
                    value,
                    panel,
                    destination,
                    order,
                    (old(transfers)@, old(copies)@),
                ),
            ),
            transfers_nonempty(old(transfers)@) ==> transfers_nonempty(final(transfers)@),
    {
        broadcast use group_deep;

        let tile = match self.shard(destination) {
            Ok(shard) => shard.tile,
            Err(e) => {
                return Err(e);
            },
        };
        let mappings = self.deferred_panel_mappings(value, panel, destination)?;
        let ghost model = deep(mappings@);
        let ghost start = (transfers@, copies@);
        let mut k: usize = 0;
        while k < mappings.len()
            invariant
                k <= mappings@.len(),
                gather_from(target, self@.shards, model, tile, order, 0, start) == gather_from(
                    target,
                    self@.shards,
                    model,
                    tile,
                    order,
                    k as int,
                    (transfers@, copies@),
                ),
                transfers_nonempty(start.0) ==> transfers_nonempty(transfers@),
            decreases mappings@.len() - k,
        {
            let (source, into) = &mappings[k];
            assert(model[k as int] == (source@, into@));
            let mut one: Vec<(ShardView, ShardView)> = Vec::new();
            one.push((source.duplicate(), into.duplicate()));
            assert(deep(one@) =~= seq![model[k as int]]);
            let pieces = match order {
                ExchangeOrder::Semantic => one,
                ExchangeOrder::Physical => match self.f16_micro_panel_mappings(target, &one) {
                    Ok(Some(pieces)) => pieces,
                    Ok(None) => {
                        return Err(LowLoweringError::InvalidOperatorPlan);
                    },
                    Err(e) => {
                        return Err(e);
                    },
                },
            };
            self.place_mappings(target, &pieces, tile, order, transfers, copies)?;
            k += 1;
        }
        Ok(())
    }
}

} // verus!
