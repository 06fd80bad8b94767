//! Deferred keys and values: packed once by an owner for each panel, and then
//! broadcast to all tiles that use the panel.

use crate::attention_tasks::{as_kernel, panel_benefits, AttentionTask};
use crate::buffers::{append_fill_zero, append_attention_rearrange, push_attention_buffer};
use crate::copies::view_copies;
use crate::deferred::{gather_deferred_panel, supports_physical_exchange, Panel};
use crate::extents::{min, min_u32};
use crate::fragments::{div_ceil, div_ceil_u32};
use crate::low::{
    ExchangeOrder, LocalCopy, LowLoweringError, LowLoweringResult, LowShardId, ShardModel,
    ShardView, ViewModel, WorkProvenance, WorkReason,
};
use crate::mid::MidValueId;
use crate::model::{Model, copy_all, deep, group_deep};
use crate::order::{groups_insert, lemma_insert_nonempty, GroupModel, Groups};
use crate::phase::{
    add_transfer, add_transfer_to, append_mixed_phase, transfers_nonempty,
};
use crate::copies::on_tile;
use crate::state::{
    append_copies_from, did, full_view, has_padding, narrow_view, shard_of, LoweringState,
    StateModel, Step, StepWith, Transfers, TransfersModel,
};
use crate::target::Target;
use crate::tensor::{AmpOrder, BlockMajorOrder, ElementOrder, AMP_COLUMN_MICRO, AMP_INNER_BLOCK};
use vstd::prelude::*;

verus! {

/// A packed panel, the row-major buffer it is packed from, and who uses it.
#[derive(Debug)]
pub struct PreparedDistributedPanel {
    pub panel: u32,
    pub row_major: Option<LowShardId>,
    pub packed: LowShardId,
    pub tile: u16,
    pub destinations: Vec<LowShardId>,
}

/// Abstract value of a [`PreparedDistributedPanel`].
pub struct PanelModel {
    pub panel: u32,
    pub row_major: Option<LowShardId>,
    pub packed: LowShardId,
    pub tile: u16,
    pub destinations: Seq<LowShardId>,
}

impl View for PreparedDistributedPanel {
    type V = PanelModel;

    open spec fn view(&self) -> PanelModel {
        PanelModel {
            panel: self.panel,
            row_major: self.row_major,
            packed: self.packed,
            tile: self.tile,
            destinations: self.destinations@,
        }
    }
}

/// The packed panels of a block of keys and values.
#[derive(Debug)]
pub struct PreparedAttentionBlock {
    pub row_start: u32,
    pub valid_rows: u32,
    pub key_panels: Vec<PreparedDistributedPanel>,
    pub value_panels: Vec<PreparedDistributedPanel>,
}

/// Abstract value of a [`PreparedAttentionBlock`].
pub struct AttentionBlockModel {
    pub row_start: u32,
    pub valid_rows: u32,
    pub key_panels: Seq<PanelModel>,
    pub value_panels: Seq<PanelModel>,
}

impl View for PreparedAttentionBlock {
    type V = AttentionBlockModel;

    open spec fn view(&self) -> AttentionBlockModel {
        AttentionBlockModel {
            row_start: self.row_start,
            valid_rows: self.valid_rows,
            key_panels: deep(self.key_panels@),
            value_panels: deep(self.value_panels@),
        }
    }
}

/// The rows of one value that are packed together, and their format.
#[derive(Clone, Copy, Debug, PartialEq, Eq, Structural)]
pub struct PanelRows {
    pub value: MidValueId,
    pub row_start: u32,
    pub rows: u32,
    pub logical_columns: u32,
    pub physical_columns: u32,
    pub order: ElementOrder,
    pub owner_offset: u32,
}

/// Semantic and physical transfers of one exchange.
pub type Gathers = (TransfersModel, TransfersModel);

/// Columns of a panel that hold values.
pub open spec fn panel_columns(rows: PanelRows, panel: u32) -> u32 {
    let start = panel * AMP_COLUMN_MICRO;
    if rows.logical_columns <= start {
        0
    } else {
        min((rows.logical_columns - start) as u32, AMP_COLUMN_MICRO)
    }
}

/// The values of a panel of one stream.
pub open spec fn panel_of(rows: PanelRows, stream: u32, panel: u32) -> Panel {
    Panel {
        stream,
        row_start: rows.row_start,
        rows: rows.rows,
        column_start: (panel * AMP_COLUMN_MICRO) as u32,
        columns: panel_columns(rows, panel),
    }
}

/// Which of the users of a panel packs it: panels go round.
pub open spec fn panel_owner(rows: PanelRows, panel: u32, users: nat) -> int {
    (if rows.owner_offset + panel > u32::MAX {
        u32::MAX as int
    } else {
        rows.owner_offset + panel
    }) % (users as int)
}

/// Brings the values of a panel to its owner, adding to the gathers.
pub open spec fn gather_panel<M: Target>(
    target: &M,
    s: StateModel,
    value: MidValueId,
    panel: Panel,
    destination: LowShardId,
    physical: bool,
    gathers: Gathers,
) -> StepWith<Gathers> {
    match gather_deferred_panel(
        target,
        s,
        value,
        panel,
        destination,
        if physical {
            ExchangeOrder::Physical
        } else {
            ExchangeOrder::Semantic
        },
        (
            if physical {
                gathers.1
            } else {
                gathers.0
            },
            Seq::empty(),
        ),
    ) {
        Err(e) => Err(e),
        Ok((transfers, copies)) => match append_copies_from(s, copies, 0) {
            Err(e) => Err(e),
            Ok(next) => Ok(
                (
                    next,
                    if physical {
                        (gathers.0, transfers)
                    } else {
                        (transfers, gathers.1)
                    },
                ),
            ),
        },
    }
}

/// Storage for a packed panel, and a buffer to pack it from where its values
/// cannot arrive packed. Hands back the buffer, and whether panels are exchanged.
pub open spec fn panel_storage<M: Target>(
    target: &M,
    s: StateModel,
    rows: PanelRows,
    panel: Panel,
    tile: u16,
    packed: LowShardId,
    provenance: WorkProvenance,
) -> StepWith<(Option<LowShardId>, bool)> {
    if supports_physical_exchange(target, s, rows.value, packed) {
        Ok((s, (None, true)))
    } else {
        match panel_benefits(target, s, rows.value, panel, packed) {
            Err(e) => Err(e),
            Ok(true) => match shard_of(s.shards, packed) {
                Err(e) => Err(e),
                Ok(shard) => if has_padding(shard.extents) {
                    match append_fill_zero(s, packed, provenance) {
                        Err(e) => Err(e),
                        Ok(next) => Ok((next, (None, false))),
                    }
                } else {
                    Ok((s, (None, false)))
                },
            },
            Ok(false) => match push_attention_buffer(
                s,
                tile,
                (rows.rows, rows.rows),
                (panel.columns, panel.columns),
                ElementOrder::RowMajor,
            ) {
                Err(e) => Err(e),
                Ok((next, id)) => Ok((next, (Some(id), false))),
            },
        }
    }
}

/// Prepares one panel of one stream.
pub open spec fn prepare_panel<M: Target>(
    target: &M,
    s: StateModel,
    rows: PanelRows,
    stream: u32,
    users: Seq<LowShardId>,
    panel: u32,
    gathers: Gathers,
    provenance: WorkProvenance,
) -> StepWith<(Gathers, PanelModel)> {
    match shard_of(s.shards, users[panel_owner(rows, panel, users.len())]) {
        Err(e) => Err(e),
        Ok(owner) => match push_attention_buffer(
            s,
            owner.tile,
            (rows.rows, AMP_INNER_BLOCK),
            (panel_columns(rows, panel), AMP_COLUMN_MICRO),
            rows.order,
        ) {
            Err(e) => Err(e),
            Ok((a, packed)) => match panel_storage(
                target,
                a,
                rows,
                panel_of(rows, stream, panel),
                owner.tile,
                packed,
                provenance,
            ) {
                Err(e) => Err(e),
                Ok((b, (row_major, physical))) => match gather_panel(
                    target,
                    b,
                    rows.value,
                    panel_of(rows, stream, panel),
                    match row_major {
                        Some(id) => id,
                        None => packed,
                    },
                    physical,
                    gathers,
                ) {
                    Err(e) => Err(e),
                    Ok((c, more)) => Ok(
                        (
                            c,
                            (
                                more,
                                PanelModel {
                                    panel,
                                    row_major,
                                    packed,
                                    tile: owner.tile,
                                    destinations: users,
                                },
                            ),
                        ),
                    ),
                },
            },
        },
    }
}

/// Prepares the panels of one stream from `panel` on, after `done`. Panels
/// without values are left out.
pub open spec fn prepare_stream_from<M: Target>(
    target: &M,
    s: StateModel,
    rows: PanelRows,
    stream: u32,
    users: Seq<LowShardId>,
    panel: int,
    panels: int,
    gathers: Gathers,
    done: Seq<PanelModel>,
    provenance: WorkProvenance,
) -> StepWith<(Gathers, Seq<PanelModel>)>
    decreases panels - panel,
{
    if panel >= panels {
        Ok((s, (gathers, done)))
    } else if panel_columns(rows, panel as u32) == 0 {
        prepare_stream_from(
            target,
            s,
            rows,
            stream,
            users,
            panel + 1,
            panels,
            gathers,
            done,
            provenance,
        )
    } else {
        match prepare_panel(
            target,
            s,
            rows,
            stream,
            users,
            panel as u32,
            gathers,
            provenance,
        ) {
            Err(e) => Err(e),
            Ok((next, (more, prepared))) => prepare_stream_from(
                target,
                next,
                rows,
                stream,
                users,
                panel + 1,
                panels,
                more,
                done.push(prepared),
                provenance,
            ),
        }
    }
}

/// Prepares the panels of the streams from `k` on, after `done`.
pub open spec fn prepare_streams_from<M: Target>(
    target: &M,
    s: StateModel,
    rows: PanelRows,
    streams: Seq<GroupModel<LowShardId>>,
    k: int,
    gathers: Gathers,
    done: Seq<PanelModel>,
    provenance: WorkProvenance,
) -> StepWith<(Gathers, Seq<PanelModel>)>
    decreases streams.len() - k,
{
    if k >= streams.len() {
        Ok((s, (gathers, done)))
    } else {
        match prepare_stream_from(
            target,
            s,
            rows,
            streams[k].key[0],
            streams[k].items,
            0,
            div_ceil(rows.physical_columns as int, AMP_COLUMN_MICRO as int),
            gathers,
            done,
            provenance,
        ) {
            Err(e) => Err(e),
            Ok((next, (more, prepared))) => prepare_streams_from(
                target,
                next,
                rows,
                streams,
                k + 1,
                more,
                prepared,
                provenance,
            ),
        }
    }
}

/// Prepares all panels of some rows of a value.
pub open spec fn prepare_panels<M: Target>(
    target: &M,
    s: StateModel,
    rows: PanelRows,
    streams: Seq<GroupModel<LowShardId>>,
    gathers: Gathers,
    provenance: WorkProvenance,
) -> StepWith<(Gathers, Seq<PanelModel>)> {
    if rows.physical_columns == 0 || rows.rows == 0 {
        Err(LowLoweringError::InvalidOperatorPlan)
    } else {
        prepare_streams_from(target, s, rows, streams, 0, gathers, Seq::empty(), provenance)
    }
}

/// Streams with users, each under its number.
pub open spec fn streams_valid(streams: Seq<GroupModel<LowShardId>>) -> bool {
    forall|k: int|
        0 <= k < streams.len() ==> (#[trigger] streams[k]).key.len() == 1 && streams[k].items.len()
            > 0
}

/// `r` hands back the expected panels and gathers, or is the expected error.
pub open spec fn gave_panels(
    r: LowLoweringResult<Vec<PreparedDistributedPanel>>,
    after: StateModel,
    gathers: Gathers,
    step: StepWith<(Gathers, Seq<PanelModel>)>,
) -> bool {
    match r {
        Ok(panels) => step == Ok::<(StateModel, (Gathers, Seq<PanelModel>)), LowLoweringError>(
            (after, (gathers, deep(panels@))),
        ),
        Err(e) => step == Err::<(StateModel, (Gathers, Seq<PanelModel>)), LowLoweringError>(e),
    }
}

impl LoweringState {
    fn panel_storage<M: Target>(
        &mut self,
        target: &M,
        rows: PanelRows,
        panel: Panel,
        tile: u16,
        packed: LowShardId,
        provenance: WorkProvenance,
    ) -> (r: LowLoweringResult<(Option<LowShardId>, bool)>)
        ensures
            crate::state::gave(
                r,
                final(self)@,
                panel_storage(target, old(self)@, rows, panel, tile, packed, provenance),
            ),
    {
        if self.deferred_supports_physical_exchange(target, rows.value, packed) {
            return Ok((None, true));
        }
        if self.deferred_panel_benefits_from_word_exchange(target, rows.value, panel, packed)? {
            if self.shard_has_padding(packed)? {
                self.append_fill_zero(packed, provenance)?;
            }
            return Ok((None, false));
        }
        let id = self.push_attention_buffer(
            tile,
            (rows.rows, rows.rows),
            (panel.columns, panel.columns),
            ElementOrder::RowMajor,
        )?;
        Ok((Some(id), false))
    }

    fn prepare_panel<M: Target>(
        &mut self,
        target: &M,
        rows: PanelRows,
        stream: u32,
        users: &Vec<LowShardId>,
        panel: u32,
        semantic: &mut Transfers,
        physical: &mut Transfers,
        provenance: WorkProvenance,
    ) -> (r: LowLoweringResult<PreparedDistributedPanel>)
        requires
            users@.len() > 0,
            panel * AMP_COLUMN_MICRO <= u32::MAX,
        ensures
            match r {
                Ok(prepared) => prepare_panel(
                    target,
                    old(self)@,
                    rows,
                    stream,
                    users@,
                    panel,
                    (old(semantic)@, old(physical)@),
                    provenance,
                ) == Ok::<(StateModel, (Gathers, PanelModel)), LowLoweringError>(
                    (final(self)@, ((final(semantic)@, final(physical)@), prepared@)),
                ),
                Err(e) => prepare_panel(
                    target,
                    old(self)@,
                    rows,
                    stream,
                    users@,
                    panel,
                    (old(semantic)@, old(physical)@),
                    provenance,
                ) == Err::<(StateModel, (Gathers, PanelModel)), LowLoweringError>(e),
            },
            transfers_nonempty(old(semantic)@) ==> transfers_nonempty(final(semantic)@),
            transfers_nonempty(old(physical)@) ==> transfers_nonempty(final(physical)@),
    {
        let turn: u32 = rows.owner_offset.saturating_add(panel);
        let owner: usize = turn as usize % users.len();
        assert(owner == panel_owner(rows, panel, users@.len()));
        let tile: u16 = self.shard(users[owner])?.tile;
        let column_start: u32 = panel * AMP_COLUMN_MICRO;
        let columns: u32 = min_u32(
            rows.logical_columns.saturating_sub(column_start),
            AMP_COLUMN_MICRO,
        );
        assert(columns == panel_columns(rows, panel));
        let packed = self.push_attention_buffer(
            tile,
            (rows.rows, AMP_INNER_BLOCK),
            (columns, AMP_COLUMN_MICRO),
            rows.order,
        )?;
        let part = Panel {
            stream,
            row_start: rows.row_start,
            rows: rows.rows,
            column_start,
            columns,
        };
        let (row_major, panels) = self.panel_storage(
            target,
            rows,
            part,
            tile,
            packed,
            provenance,
        )?;
        let destination = match row_major {
            Some(id) => id,
            None => packed,
        };
        let mut copies: Vec<(u16, LocalCopy)> = Vec::new();
        assert(copies@ =~= Seq::<(u16, LocalCopy)>::empty());
        if panels {
            self.gather_deferred_panel(
                target,
                rows.value,
                part,
                destination,
                ExchangeOrder::Physical,
                physical,
                &mut copies,
            )?;
        } else {
            self.gather_deferred_panel(
                target,
                rows.value,
                part,
                destination,
                ExchangeOrder::Semantic,
                semantic,
                &mut copies,
            )?;
        }
        self.append_copies(&copies)?;
        Ok(
            PreparedDistributedPanel {
                panel,
                row_major,
                packed,
                tile,
                destinations: copy_all(users.as_slice()),
            },
        )
    }

    fn prepare_stream<M: Target>(
        &mut self,
        target: &M,
        rows: PanelRows,
        stream: u32,
        users: &Vec<LowShardId>,
        semantic: &mut Transfers,
        physical: &mut Transfers,
        prepared: &mut Vec<PreparedDistributedPanel>,
        provenance: WorkProvenance,
    ) -> (r: LowLoweringResult<()>)
        requires
            users@.len() > 0,
        ensures
            match r {
                Ok(_) => prepare_stream_from(
                    target,
                    old(self)@,
                    rows,
                    stream,
                    users@,
                    0,
                    div_ceil(rows.physical_columns as int, AMP_COLUMN_MICRO as int),
                    (old(semantic)@, old(physical)@),
                    deep(old(prepared)@),
                    provenance,
                ) == Ok::<(StateModel, (Gathers, Seq<PanelModel>)), LowLoweringError>(
                    (final(self)@, ((final(semantic)@, final(physical)@), deep(final(prepared)@))),
                ),
                Err(e) => prepare_stream_from(
                    target,
                    old(self)@,
                    rows,
                    stream,
                    users@,
                    0,
                    div_ceil(rows.physical_columns as int, AMP_COLUMN_MICRO as int),
                    (old(semantic)@, old(physical)@),
                    deep(old(prepared)@),
                    provenance,
                ) == Err::<(StateModel, (Gathers, Seq<PanelModel>)), LowLoweringError>(e),
            },
            transfers_nonempty(old(semantic)@) ==> transfers_nonempty(final(semantic)@),
            transfers_nonempty(old(physical)@) ==> transfers_nonempty(final(physical)@),
    {
        broadcast use group_deep;

        let ghost start = self@;
        let ghost gathers = (semantic@, physical@);
        let ghost before = deep(prepared@);
        let panels: u32 = div_ceil_u32(rows.physical_columns, AMP_COLUMN_MICRO);
        let mut panel: u32 = 0;
        while panel < panels
            invariant
                panel <= panels,
                (panels - 1) * AMP_COLUMN_MICRO <= u32::MAX,
                prepare_stream_from(
                    target,
                    start,
                    rows,
                    stream,
                    users@,
                    0,
                    panels as int,
                    gathers,
                    before,
                    provenance,
                ) == prepare_stream_from(
                    target,
                    self@,
                    rows,
                    stream,
                    users@,
                    panel as int,
                    panels as int,
                    (semantic@, physical@),
                    deep(prepared@),
                    provenance,
                ),
                transfers_nonempty(gathers.0) ==> transfers_nonempty(semantic@),
                transfers_nonempty(gathers.1) ==> transfers_nonempty(physical@),
            decreases panels - panel,
        {
            if rows.logical_columns > panel * AMP_COLUMN_MICRO {
                let one = self.prepare_panel(
                    target,
                    rows,
                    stream,
                    users,
                    panel,
                    semantic,
                    physical,
                    provenance,
                )?;
                prepared.push(one);
            }
            panel += 1;
        }
        Ok(())
    }

    pub fn prepare_distributed_attention_panels<M: Target>(
        &mut self,
        target: &M,
        rows: PanelRows,
        streams: &Groups<LowShardId>,
        semantic: &mut Transfers,
        physical: &mut Transfers,
        provenance: WorkProvenance,
    ) -> (r: LowLoweringResult<Vec<PreparedDistributedPanel>>)
        requires
            streams_valid(streams@),
        ensures
            gave_panels(
                r,
                final(self)@,
                (final(semantic)@, final(physical)@),
                prepare_panels(
                    target,
                    old(self)@,
                    rows,
                    streams@,
                    (old(semantic)@, old(physical)@),
                    provenance,
                ),
            ),
            transfers_nonempty(old(semantic)@) ==> transfers_nonempty(final(semantic)@),
            transfers_nonempty(old(physical)@) ==> transfers_nonempty(final(physical)@),
    {
        broadcast use group_deep;

        if rows.physical_columns == 0 || rows.rows == 0 {
            return Err(LowLoweringError::InvalidOperatorPlan);
        }
        let ghost start = self@;
        let ghost gathers = (semantic@, physical@);
        let mut prepared: Vec<PreparedDistributedPanel> = Vec::new();
        let mut k: usize = 0;
        while k < streams.entries.len()
            invariant
                k <= streams.entries@.len(),
                prepare_streams_from(
                    target,
                    start,
                    rows,
                    streams@,
                    0,
                    gathers,
                    Seq::empty(),
                    provenance,
                ) == prepare_streams_from(
                    target,
                    self@,
                    rows,
                    streams@,
                    k as int,
                    (semantic@, physical@),
                    deep(prepared@),
                    provenance,
                ),
                transfers_nonempty(gathers.0) ==> transfers_nonempty(semantic@),
                transfers_nonempty(gathers.1) ==> transfers_nonempty(physical@),
            decreases streams.entries@.len() - k,
        {
            let group = &streams.entries[k];
            assert(streams@[k as int] == group@);
            assert(group@.items =~= group.items@);
            self.prepare_stream(
                target,
                rows,
                group.key[0],
                &group.items,
                semantic,
                physical,
                &mut prepared,
                provenance,
            )?;
            k += 1;
        }
        Ok(prepared)
    }
}

// ---------------------------------------------------------------- blocks

/// The staging that tasks of the same head use, by head.
pub open spec fn staging_by_head(tasks: Seq<AttentionTask>, keys: bool, count: int) -> Seq<
    GroupModel<LowShardId>,
>
    decreases count,
{
    if count <= 0 {
        Seq::empty()
    } else {
        groups_insert(
            staging_by_head(tasks, keys, count - 1),
            seq![tasks[count - 1].head],
            if keys {
                tasks[count - 1].key_staging
            } else {
                tasks[count - 1].value_staging
            },
        )
    }
}

/// What the blocks of keys and values of an attention have in common.
#[derive(Clone, Copy, Debug, PartialEq, Eq, Structural)]
pub struct BlockPlan {
    pub key: MidValueId,
    pub value: MidValueId,
    pub key_rows: u32,
    pub block_rows: u32,
    pub query_dimension: u32,
    pub value_dimension: u32,
    pub padded_query_dimension: u32,
    pub padded_value_dimension: u32,
}

/// Panels of keys and of values.
pub open spec fn panel_counts(plan: BlockPlan) -> (int, int) {
    (
        div_ceil(plan.padded_query_dimension as int, AMP_COLUMN_MICRO as int),
        div_ceil(plan.padded_value_dimension as int, AMP_COLUMN_MICRO as int),
    )
}

/// The turn at which the panels of a block start going round their users.
pub open spec fn block_offset(plan: BlockPlan, block: int) -> int {
    let turn = block * (panel_counts(plan).0 + panel_counts(plan).1);
    if turn > u32::MAX {
        u32::MAX as int
    } else {
        turn
    }
}

/// Rows of a block that hold keys.
pub open spec fn block_valid_rows(plan: BlockPlan, block: int) -> u32 {
    min((plan.key_rows - block * plan.block_rows) as u32, plan.block_rows)
}

/// The keys of a block.
pub open spec fn key_rows_of(plan: BlockPlan, block: int) -> PanelRows {
    PanelRows {
        value: plan.key,
        row_start: (block * plan.block_rows) as u32,
        rows: block_valid_rows(plan, block),
        logical_columns: plan.query_dimension,
        physical_columns: plan.padded_query_dimension,
        order: ElementOrder::Amp(AmpOrder::TransposedRight),
        owner_offset: block_offset(plan, block) as u32,
    }
}

/// The values of a block.
pub open spec fn value_rows_of(plan: BlockPlan, block: int) -> PanelRows {
    PanelRows {
        value: plan.value,
        row_start: (block * plan.block_rows) as u32,
        rows: block_valid_rows(plan, block),
        logical_columns: plan.value_dimension,
        physical_columns: plan.padded_value_dimension,
        order: ElementOrder::BlockMajor(
            BlockMajorOrder::Matrix {
                row_block: plan.block_rows as u16,
                column_block: AMP_COLUMN_MICRO as u16,
            },
        ),
        owner_offset: (block_offset(plan, block) + panel_counts(plan).0) as u32,
    }
}

/// Prepares the panels of one block.
pub open spec fn prepare_block<M: Target>(
    target: &M,
    s: StateModel,
    plan: BlockPlan,
    keys: Seq<GroupModel<LowShardId>>,
    values: Seq<GroupModel<LowShardId>>,
    block: int,
    gathers: Gathers,
    provenance: WorkProvenance,
) -> StepWith<(Gathers, AttentionBlockModel)> {
    match prepare_panels(target, s, key_rows_of(plan, block), keys, gathers, provenance) {
        Err(e) => Err(e),
        Ok((a, (more, key_panels))) => if plan.block_rows > u16::MAX {
            Err(LowLoweringError::InvalidOperatorPlan)
        } else if block_offset(plan, block) + panel_counts(plan).0 > u32::MAX {
            Err(LowLoweringError::IdOverflow)
        } else {
            match prepare_panels(
                target,
                a,
                value_rows_of(plan, block),
                values,
                more,
                provenance,
            ) {
                Err(e) => Err(e),
                Ok((b, (most, value_panels))) => Ok(
                    (
                        b,
                        (
                            most,
                            AttentionBlockModel {
                                row_start: (block * plan.block_rows) as u32,
                                valid_rows: block_valid_rows(plan, block),
                                key_panels,
                                value_panels,
                            },
                        ),
                    ),
                ),
            }
        },
    }
}

/// Prepares the blocks from `block` on, after `done`.
pub open spec fn prepare_blocks_from<M: Target>(
    target: &M,
    s: StateModel,
    plan: BlockPlan,
    keys: Seq<GroupModel<LowShardId>>,
    values: Seq<GroupModel<LowShardId>>,
    block: int,
    gathers: Gathers,
    done: Seq<AttentionBlockModel>,
    provenance: WorkProvenance,
) -> StepWith<(Gathers, Seq<AttentionBlockModel>)>
    decreases div_ceil(plan.key_rows as int, plan.block_rows as int) - block,
{
    if block >= div_ceil(plan.key_rows as int, plan.block_rows as int) {
        Ok((s, (gathers, done)))
    } else {
        match prepare_block(target, s, plan, keys, values, block, gathers, provenance) {
            Err(e) => Err(e),
            Ok((next, (more, prepared))) => prepare_blocks_from(
                target,
                next,
                plan,
                keys,
                values,
                block + 1,
                more,
                done.push(prepared),
                provenance,
            ),
        }
    }
}

/// Packs the panels from `k` on that arrived in row-major order.
pub open spec fn pack_panels_from(
    s: StateModel,
    panels: Seq<PanelModel>,
    provenance: WorkProvenance,
    k: int,
) -> Step
    decreases panels.len() - k,
{
    if k >= panels.len() {
        Ok(s)
    } else {
        match panels[k].row_major {
            None => pack_panels_from(s, panels, provenance, k + 1),
            Some(row_major) => match append_attention_rearrange(
                s,
                panels[k].tile,
                row_major,
                panels[k].packed,
                2,
                as_kernel(provenance),
            ) {
                Err(e) => Err(e),
                Ok(next) => pack_panels_from(next, panels, provenance, k + 1),
            },
        }
    }
}

/// Packs the panels of the blocks from `k` on.
pub open spec fn pack_blocks_from(
    s: StateModel,
    blocks: Seq<AttentionBlockModel>,
    provenance: WorkProvenance,
    k: int,
) -> Step
    decreases blocks.len() - k,
{
    if k >= blocks.len() {
        Ok(s)
    } else {
        match pack_panels_from(s, blocks[k].key_panels, provenance, 0) {
            Err(e) => Err(e),
            Ok(a) => match pack_panels_from(a, blocks[k].value_panels, provenance, 0) {
                Err(e) => Err(e),
                Ok(b) => pack_blocks_from(b, blocks, provenance, k + 1),
            },
        }
    }
}

/// Packs all deferred keys and values, each panel once.
pub open spec fn prepare_attention_blocks<M: Target>(
    target: &M,
    s: StateModel,
    plan: BlockPlan,
    tasks: Seq<AttentionTask>,
    provenance: WorkProvenance,
) -> StepWith<Seq<AttentionBlockModel>> {
    match prepare_blocks_from(
        target,
        s,
        plan,
        staging_by_head(tasks, true, tasks.len() as int),
        staging_by_head(tasks, false, tasks.len() as int),
        0,
        (Seq::empty(), Seq::empty()),
        Seq::empty(),
        provenance,
    ) {
        Err(e) => Err(e),
        Ok((a, (gathers, blocks))) => match append_mixed_phase(
            a,
            gathers.0,
            gathers.1,
            provenance,
        ) {
            Err(e) => Err(e),
            Ok(b) => match pack_blocks_from(b, blocks, provenance, 0) {
                Err(e) => Err(e),
                Ok(c) => Ok((c, blocks)),
            },
        },
    }
}

fn file_staging(tasks: &Vec<AttentionTask>, keys: bool) -> (r: Groups<LowShardId>)
    ensures
        r@ == staging_by_head(tasks@, keys, tasks@.len() as int),
        streams_valid(r@),
{
    let mut filed: Groups<LowShardId> = Groups::new();
    let mut i: usize = 0;
    while i < tasks.len()
        invariant
            i <= tasks@.len(),
            filed@ == staging_by_head(tasks@, keys, i as int),
            streams_valid(filed@),
        decreases tasks@.len() - i,
    {
        let mut key: Vec<u32> = Vec::new();
        key.push(tasks[i].head);
        assert(key@ =~= seq![tasks@[i as int].head]);
        let item = if keys {
            tasks[i].key_staging
        } else {
            tasks[i].value_staging
        };
        proof {
            let before = filed@;
            lemma_insert_nonempty(before, key@, item@);
            crate::order::lemma_slot_bounds(before, key@);
            let slot = crate::order::slot_from(before, key@, 0);
            let after = groups_insert(before, key@, item@);
            assert forall|k: int| 0 <= k < after.len() implies (#[trigger] after[k]).key.len() == 1
                && after[k].items.len() > 0 by {
                if k != slot {
                    let origin = if k < slot || (slot < before.len() && before[slot].key == key@) {
                        k
                    } else {
                        k - 1
                    };
                    assert(after[k] == before[origin]);
                }
            }
        }
        filed.insert(key, item);
        i += 1;
    }
    filed
}

proof fn lemma_block_start(rows: int, block_rows: int, block: int)
    requires
        block_rows > 0,
        rows >= 0,
        0 <= block < div_ceil(rows, block_rows),
    ensures
        0 <= block * block_rows < rows,
{
    vstd::arithmetic::div_mod::lemma_fundamental_div_mod(rows, block_rows);
    let q = rows / block_rows;
    let m = rows % block_rows;
    assert(0 <= m < block_rows);
    assert(0 <= block * block_rows < rows) by (nonlinear_arith)
        requires
            rows == block_rows * q + m,
            0 <= m < block_rows,
            0 <= block,
            m == 0 ==> block < q,
            m != 0 ==> block < q + 1,
            block_rows > 0,
    ;
}

impl LoweringState {
    fn pack_panels(
        &mut self,
        panels: &Vec<PreparedDistributedPanel>,
        provenance: WorkProvenance,
    ) -> (r: LowLoweringResult<()>)
        ensures
            did(r, final(self)@, pack_panels_from(old(self)@, deep(panels@), provenance, 0)),
    {
        broadcast use group_deep;

        let ghost start = self@;
        let ghost model = deep(panels@);
        let kernel = WorkProvenance {
            operation: provenance.operation,
            value: provenance.value,
            reason: WorkReason::OperatorKernel,
        };
        let mut k: usize = 0;
        while k < panels.len()
            invariant
                k <= panels@.len(),
                pack_panels_from(start, model, provenance, 0) == pack_panels_from(
                    self@,
                    model,
                    provenance,
                    k as int,
                ),
            decreases panels@.len() - k,
        {
            let panel = &panels[k];
            assert(model[k as int] == panel@);
            match panel.row_major {
                None => {},
                Some(row_major) => {
                    self.append_attention_rearrange(panel.tile, row_major, panel.packed, 2, kernel)?;
                },
            }
            k += 1;
        }
        Ok(())
    }

    fn prepare_block<M: Target>(
        &mut self,
        target: &M,
        plan: BlockPlan,
        keys: &Groups<LowShardId>,
        values: &Groups<LowShardId>,
        block: u32,
        semantic: &mut Transfers,
        physical: &mut Transfers,
        provenance: WorkProvenance,
    ) -> (r: LowLoweringResult<PreparedAttentionBlock>)
        requires
            streams_valid(keys@),
            streams_valid(values@),
            plan.block_rows > 0,
            block < div_ceil(plan.key_rows as int, plan.block_rows as int),
        ensures
            match r {
                Ok(prepared) => prepare_block(
                    target,
                    old(self)@,
                    plan,
                    keys@,
                    values@,
                    block as int,
                    (old(semantic)@, old(physical)@),
                    provenance,
                ) == Ok::<(StateModel, (Gathers, AttentionBlockModel)), LowLoweringError>(
                    (final(self)@, ((final(semantic)@, final(physical)@), prepared@)),
                ),
                Err(e) => prepare_block(
                    target,
                    old(self)@,
                    plan,
                    keys@,
                    values@,
                    block as int,
                    (old(semantic)@, old(physical)@),
                    provenance,
                ) == Err::<(StateModel, (Gathers, AttentionBlockModel)), LowLoweringError>(e),
            },
            transfers_nonempty(old(semantic)@) ==> transfers_nonempty(final(semantic)@),
            transfers_nonempty(old(physical)@) ==> transfers_nonempty(final(physical)@),
    {
        broadcast use group_deep;

        proof {
            lemma_block_start(plan.key_rows as int, plan.block_rows as int, block as int);
        }
        let row_start: u32 = block * plan.block_rows;
        let valid_rows: u32 = min_u32(plan.key_rows - row_start, plan.block_rows);
        let key_panels: u32 = div_ceil_u32(plan.padded_query_dimension, AMP_COLUMN_MICRO);
        let value_panels: u32 = div_ceil_u32(plan.padded_value_dimension, AMP_COLUMN_MICRO);
        let per_block: u32 = key_panels + value_panels;
        let offset: u32 = match block.checked_mul(per_block) {
            Some(turn) => turn,
            None => u32::MAX,
        };
        assert(offset == block_offset(plan, block as int));
        let key_rows = PanelRows {
            value: plan.key,
            row_start,
            rows: valid_rows,
            logical_columns: plan.query_dimension,
            physical_columns: plan.padded_query_dimension,
            order: ElementOrder::Amp(AmpOrder::TransposedRight),
            owner_offset: offset,
        };
        assert(key_rows == key_rows_of(plan, block as int));
        let packed_keys = self.prepare_distributed_attention_panels(
            target,
            key_rows,
            keys,
            semantic,
            physical,
            provenance,
        )?;
        if plan.block_rows > 0xffff {
            return Err(LowLoweringError::InvalidOperatorPlan);
        }
        if offset as u64 + key_panels as u64 > 0xffff_ffff {
            return Err(LowLoweringError::IdOverflow);
        }
        let value_rows = PanelRows {
            value: plan.value,
            row_start,
            rows: valid_rows,
            logical_columns: plan.value_dimension,
            physical_columns: plan.padded_value_dimension,
            order: ElementOrder::BlockMajor(
                BlockMajorOrder::Matrix {
                    row_block: plan.block_rows as u16,
                    column_block: AMP_COLUMN_MICRO as u16,
                },
            ),
            owner_offset: offset + key_panels,
        };
        assert(value_rows == value_rows_of(plan, block as int));
        let packed_values = self.prepare_distributed_attention_panels(
            target,
            value_rows,
            values,
            semantic,
            physical,
            provenance,
        )?;
        Ok(
            PreparedAttentionBlock {
                row_start,
                valid_rows,
                key_panels: packed_keys,
                value_panels: packed_values,
            },
        )
    }

    pub fn prepare_attention_blocks<M: Target>(
        &mut self,
        target: &M,
        plan: BlockPlan,
        tasks: &Vec<AttentionTask>,
        provenance: WorkProvenance,
    ) -> (r: LowLoweringResult<Vec<PreparedAttentionBlock>>)
        requires
            plan.block_rows > 0,
        ensures
            match r {
                Ok(blocks) => prepare_attention_blocks(
                    target,
                    old(self)@,
                    plan,
                    tasks@,
                    provenance,
                ) == Ok::<(StateModel, Seq<AttentionBlockModel>), LowLoweringError>(
                    (final(self)@, deep(blocks@)),
                ),
                Err(e) => prepare_attention_blocks(
                    target,
                    old(self)@,
                    plan,
                    tasks@,
                    provenance,
                ) == Err::<(StateModel, Seq<AttentionBlockModel>), LowLoweringError>(e),
            },
    {
        broadcast use group_deep;

        let keys = file_staging(tasks, true);
        let values = file_staging(tasks, false);
        let mut semantic: Transfers = Groups::new();
        let mut physical: Transfers = Groups::new();
        let ghost start = self@;
        let mut prepared: Vec<PreparedAttentionBlock> = Vec::new();
        let blocks: u32 = div_ceil_u32(plan.key_rows, plan.block_rows);
        let mut block: u32 = 0;
        while block < blocks
            invariant
                block <= blocks,
                prepare_blocks_from(
                    target,
                    start,
                    plan,
                    keys@,
                    values@,
                    0,
                    (Seq::empty(), Seq::empty()),
                    Seq::empty(),
                    provenance,
                ) == prepare_blocks_from(
                    target,
                    self@,
                    plan,
                    keys@,
                    values@,
                    block as int,
                    (semantic@, physical@),
                    deep(prepared@),
                    provenance,
                ),
                transfers_nonempty(semantic@),
                transfers_nonempty(physical@),
            decreases blocks - block,
        {
            let one = self.prepare_block(
                target,
                plan,
                &keys,
                &values,
                block,
                &mut semantic,
                &mut physical,
                provenance,
            )?;
            prepared.push(one);
            block += 1;
        }
        self.append_mixed_phase(&semantic, &physical, provenance)?;
        let ghost middle = self@;
        let ghost model = deep(prepared@);
        let mut k: usize = 0;
        while k < prepared.len()
            invariant
                k <= prepared@.len(),
                pack_blocks_from(middle, model, provenance, 0) == pack_blocks_from(
                    self@,
                    model,
                    provenance,
                    k as int,
                ),
            decreases prepared@.len() - k,
        {
            assert(model[k as int] == prepared@[k as int]@);
            self.pack_panels(&prepared[k].key_panels, provenance)?;
            self.pack_panels(&prepared[k].value_panels, provenance)?;
            k += 1;
        }
        Ok(prepared)
    }
}

// ---------------------------------------------------------------- broadcasts

/// The part of a user's staging that a panel fills. Rows that end beyond all
/// addresses are in no staging.
pub open spec fn panel_destination(
    shards: Seq<ShardModel>,
    user: LowShardId,
    row_start: u32,
    rows: int,
    panel: u32,
) -> Result<ViewModel, LowLoweringError> {
    if row_start + rows > u32::MAX || (panel + 1) * AMP_COLUMN_MICRO > u32::MAX {
        Err(LowLoweringError::InvalidOperatorPlan)
    } else {
        narrow_view(
            shards,
            user,
            seq![
                (0usize, row_start, (row_start + rows) as u32),
                (
                    1usize,
                    (panel * AMP_COLUMN_MICRO) as u32,
                    ((panel + 1) * AMP_COLUMN_MICRO) as u32,
                ),
            ],
        )
    }
}

/// Sends a panel to its users from `k` on: by a copy on its own tile, and
/// else by a transfer.
pub open spec fn broadcast_panel_from<M: Target>(
    target: &M,
    s: StateModel,
    panel: PanelModel,
    source: ViewModel,
    row_start: u32,
    k: int,
    transfers: TransfersModel,
) -> StepWith<TransfersModel>
    decreases panel.destinations.len() - k,
{
    if k >= panel.destinations.len() {
        Ok((s, transfers))
    } else {
        match shard_of(s.shards, panel.destinations[k]) {
            Err(e) => Err(e),
            Ok(user) => match panel_destination(
                s.shards,
                panel.destinations[k],
                row_start,
                source.extents[0].physical_end - source.extents[0].start,
                panel.panel,
            ) {
                Err(e) => Err(e),
                Ok(destination) => if user.tile == panel.tile {
                    match view_copies(
                        target,
                        s.shards,
                        source,
                        destination,
                        ExchangeOrder::Physical,
                    ) {
                        Err(e) => Err(e),
                        Ok(copies) => match append_copies_from(
                            s,
                            on_tile(copies, panel.tile),
                            0,
                        ) {
                            Err(e) => Err(e),
                            Ok(next) => broadcast_panel_from(
                                target,
                                next,
                                panel,
                                source,
                                row_start,
                                k + 1,
                                transfers,
                            ),
                        },
                    }
                } else {
                    broadcast_panel_from(
                        target,
                        s,
                        panel,
                        source,
                        row_start,
                        k + 1,
                        add_transfer(transfers, source, destination),
                    )
                },
            },
        }
    }
}

/// Sends the panels from `k` on to their users.
pub open spec fn broadcast_panels_from<M: Target>(
    target: &M,
    s: StateModel,
    panels: Seq<PanelModel>,
    row_start: u32,
    k: int,
    transfers: TransfersModel,
) -> StepWith<TransfersModel>
    decreases panels.len() - k,
{
    if k >= panels.len() {
        Ok((s, transfers))
    } else {
        match full_view(s.shards, panels[k].packed) {
            Err(e) => Err(e),
            Ok(source) => if source.extents.len() == 0 || source.extents[0].physical_end
                < source.extents[0].start {
                Err(LowLoweringError::InvalidOperatorPlan)
            } else {
                match broadcast_panel_from(
                    target,
                    s,
                    panels[k],
                    source,
                    row_start,
                    0,
                    transfers,
                ) {
                    Err(e) => Err(e),
                    Ok((next, more)) => broadcast_panels_from(
                        target,
                        next,
                        panels,
                        row_start,
                        k + 1,
                        more,
                    ),
                }
            },
        }
    }
}

impl LoweringState {
    fn panel_destination(&self, user: LowShardId, row_start: u32, rows: u32, panel: u32) -> (r:
        LowLoweringResult<ShardView>)
        ensures
            crate::state::found(
                r,
                panel_destination(self@.shards, user, row_start, rows as int, panel),
            ),
    {
        if row_start as u64 + rows as u64 > 0xffff_ffff || (panel as u64 + 1)
            * AMP_COLUMN_MICRO as u64 > 0xffff_ffff {
            return Err(LowLoweringError::InvalidOperatorPlan);
        }
        let column: u32 = panel * AMP_COLUMN_MICRO;
        let mut ranges: Vec<(usize, u32, u32)> = Vec::new();
        ranges.push((0, row_start, row_start + rows));
        ranges.push((1, column, column + AMP_COLUMN_MICRO));
        assert(ranges@ =~= seq![
            (0usize, row_start, (row_start + rows) as u32),
            (
                1usize,
                (panel * AMP_COLUMN_MICRO) as u32,
                ((panel + 1) * AMP_COLUMN_MICRO) as u32,
            ),
        ]);
        self.narrow_view(user, ranges.as_slice())
    }

    pub fn append_prepared_panel_broadcasts<M: Target>(
        &mut self,
        target: &M,
        panels: &Vec<PreparedDistributedPanel>,
        row_start: u32,
        transfers: &mut Transfers,
    ) -> (r: LowLoweringResult<()>)
        ensures
            match r {
                Ok(_) => broadcast_panels_from(
                    target,
                    old(self)@,
                    deep(panels@),
                    row_start,
                    0,
                    old(transfers)@,
                ) == Ok::<(StateModel, TransfersModel), LowLoweringError>(
                    (final(self)@, final(transfers)@),
                ),
                Err(e) => broadcast_panels_from(
                    target,
                    old(self)@,
                    deep(panels@),
                    row_start,
                    0,
                    old(transfers)@,
                ) == Err::<(StateModel, TransfersModel), LowLoweringError>(e),
            },
            transfers_nonempty(old(transfers)@) ==> transfers_nonempty(final(transfers)@),
    {
        broadcast use group_deep;

        let ghost start = self@;
        let ghost model = deep(panels@);
        let ghost before = transfers@;
        let mut k: usize = 0;
        while k < panels.len()
            invariant
                k <= panels@.len(),
                broadcast_panels_from(target, start, model, row_start, 0, before)
                    == broadcast_panels_from(
                    target,
                    self@,
                    model,
                    row_start,
                    k as int,
                    transfers@,
                ),
                transfers_nonempty(before) ==> transfers_nonempty(transfers@),
            decreases panels@.len() - k,
        {
            let panel = &panels[k];
            assert(model[k as int] == panel@);
            let source = self.full_view(panel.packed)?;
            if source.extents.len() == 0 || source.extents[0].physical_end
                < source.extents[0].start {
                return Err(LowLoweringError::InvalidOperatorPlan);
            }
            let rows: u32 = source.extents[0].physical_end - source.extents[0].start;
            let ghost middle = self@;
            let ghost between = transfers@;
            let mut d: usize = 0;
            while d < panel.destinations.len()
                invariant
                    d <= panel.destinations@.len(),
                    broadcast_panel_from(target, middle, panel@, source@, row_start, 0, between)
                        == broadcast_panel_from(
                        target,
                        self@,
                        panel@,
                        source@,
                        row_start,
                        d as int,
                        transfers@,
                    ),
                    transfers_nonempty(between) ==> transfers_nonempty(transfers@),
                decreases panel.destinations@.len() - d,
            {
                let user = panel.destinations[d];
                let tile: u16 = self.shard(user)?.tile;
                let destination = self.panel_destination(user, row_start, rows, panel.panel)?;
                if tile == panel.tile {
                    let mut copies: Vec<(u16, LocalCopy)> = Vec::new();
                    assert(copies@ =~= Seq::<(u16, LocalCopy)>::empty());
                    self.append_view_copies(
                        target,
                        &source,
                        &destination,
                        tile,
                        ExchangeOrder::Physical,
                        &mut copies,
                    )?;
                    proof {
                        let moved = view_copies(
                            target,
                            self@.shards,
                            source@,
                            destination@,
                            ExchangeOrder::Physical,
                        )->Ok_0;
                        assert(copies@ =~= on_tile(moved, tile));
                    }
                    self.append_copies(&copies)?;
                } else {
                    add_transfer_to(transfers, source.duplicate(), destination);
                }
                d += 1;
            }
            k += 1;
        }
        Ok(())
    }
}

} // verus!
