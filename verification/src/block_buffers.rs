//! Buffers and aliases among blocks.

use crate::blocks::{
    allocation_shards, block_of, built, push_block, rebind, yielded, BuilderModel, ExpansionError,
    ExpansionResult, TileGraphBuilder,
};
use crate::low::{LowShard, LowShardId, ShardDefinition, ShardModel};
use crate::materialize::flat_block;
use crate::mid::MidValueId;
use crate::model::group_deep;
use crate::tensor::{
    replicated_layout, same_extents, ElementOrder, FormatModel, Layout, MemoryClass, Precision,
    ShardExtent, TensorFormat, TensorShape, TensorType, TypeModel,
};
use vstd::prelude::*;

verus! {

/// A matrix with padding, on one tile.
pub open spec fn matrix_block(
    tile: u16,
    rows: (u32, u32),
    columns: (u32, u32),
    precision: Precision,
    order: ElementOrder,
    memory_class: MemoryClass,
) -> ShardModel {
    ShardModel {
        id: LowShardId(0),
        tile,
        tensor_type: TypeModel {
            shape: seq![rows.0, columns.0],
            format: FormatModel { precision, layout: replicated_layout(order, memory_class) },
        },
        extents: seq![
            ShardExtent { axis: 0, start: 0, logical_end: rows.0, physical_end: rows.1 },
            ShardExtent { axis: 1, start: 0, logical_end: columns.0, physical_end: columns.1 },
        ],
        definition: ShardDefinition::Staging,
    }
}

/// The first of the listed blocks from `k` on with the given rectangle, where
/// it must be on the tile if `local` is set.
pub open spec fn first_with_rectangle(
    shards: Seq<ShardModel>,
    ids: Seq<LowShardId>,
    extents: Seq<ShardExtent>,
    tile: u16,
    local: bool,
    k: int,
) -> Option<LowShardId>
    decreases ids.len() - k,
{
    if k >= ids.len() {
        None
    } else if ids[k].0 < shards.len() && shards[ids[k].0 as int].extents == extents && (!local
        || shards[ids[k].0 as int].tile == tile) {
        Some(ids[k])
    } else {
        first_with_rectangle(shards, ids, extents, tile, local, k + 1)
    }
}

/// The block of a value that holds the same rectangle as another block, on the
/// same tile if there is one.
pub open spec fn corresponding_block(s: BuilderModel, value: MidValueId, other: LowShardId) -> Result<
    LowShardId,
    ExpansionError,
> {
    match block_of(s.shards, other) {
        Err(e) => Err(e),
        Ok(block) => match allocation_shards(s, value) {
            Err(e) => Err(e),
            Ok(ids) => match first_with_rectangle(
                s.shards,
                ids,
                block.extents,
                block.tile,
                true,
                0,
            ) {
                Some(id) => Ok(id),
                None => match first_with_rectangle(
                    s.shards,
                    ids,
                    block.extents,
                    block.tile,
                    false,
                    0,
                ) {
                    Some(id) => Ok(id),
                    None => Err(ExpansionError::UnknownValue(value)),
                },
            },
        },
    }
}

fn new_matrix(
    tile: u16,
    rows: (u32, u32),
    columns: (u32, u32),
    precision: Precision,
    order: ElementOrder,
    memory_class: MemoryClass,
) -> (r: LowShard)
    ensures
        r@ == matrix_block(tile, rows, columns, precision, order, memory_class),
{
    let mut shape: Vec<u32> = Vec::new();
    shape.push(rows.0);
    shape.push(columns.0);
    let mut extents: Vec<ShardExtent> = Vec::new();
    extents.push(ShardExtent { axis: 0, start: 0, logical_end: rows.0, physical_end: rows.1 });
    extents.push(
        ShardExtent { axis: 1, start: 0, logical_end: columns.0, physical_end: columns.1 },
    );
    let block = LowShard {
        id: LowShardId(0),
        tile,
        tensor_type: TensorType {
            shape: TensorShape(shape),
            format: TensorFormat { precision, layout: Layout::local(order, memory_class) },
        },
        extents,
        definition: ShardDefinition::Staging,
    };
    assert(block@.tensor_type.shape =~= seq![rows.0, columns.0]);
    assert(block@.extents =~= matrix_block(
        tile,
        rows,
        columns,
        precision,
        order,
        memory_class,
    ).extents);
    block
}

impl TileGraphBuilder {
    /// Makes a block another name for a block.
    pub fn alias_shard(&mut self, id: LowShardId, source: LowShardId) -> (r: ExpansionResult<()>)
        ensures
            built(r, final(self)@, rebind(old(self)@, id, ShardDefinition::Alias(source))),
    {
        self.rebind(id, ShardDefinition::Alias(source))
    }

    /// Adds a block of elements in a row.
    pub fn push_packed_buffer(
        &mut self,
        tile: u16,
        elements: u32,
        precision: Precision,
        definition: ShardDefinition,
    ) -> (r: ExpansionResult<LowShardId>)
        ensures
            yielded(
                r,
                final(self)@,
                push_block(
                    old(self)@,
                    (ShardModel { definition, ..flat_block(tile, precision, elements) }),
                ),
            ),
    {
        let mut shape: Vec<u32> = Vec::new();
        shape.push(elements);
        let mut extents: Vec<ShardExtent> = Vec::new();
        extents.push(
            ShardExtent { axis: 0, start: 0, logical_end: elements, physical_end: elements },
        );
        let block = LowShard {
            id: LowShardId(0),
            tile,
            tensor_type: TensorType {
                shape: TensorShape(shape),
                format: TensorFormat {
                    precision,
                    layout: Layout::local(ElementOrder::RowMajor, MemoryClass::Ipu21Standard),
                },
            },
            extents,
            definition,
        };
        assert(block@.tensor_type.shape =~= seq![elements]);
        assert(block@.extents =~= flat_block(tile, precision, elements).extents);
        self.push_shard(block)
    }

    /// Adds a matrix without padding.
    pub fn push_attention_scratch(
        &mut self,
        tile: u16,
        rows: u32,
        columns: u32,
        precision: Precision,
        order: ElementOrder,
        memory_class: MemoryClass,
    ) -> (r: ExpansionResult<LowShardId>)
        ensures
            yielded(
                r,
                final(self)@,
                push_block(
                    old(self)@,
                    matrix_block(
                        tile,
                        (rows, rows),
                        (columns, columns),
                        precision,
                        order,
                        memory_class,
                    ),
                ),
            ),
    {
        self.push_shard(
            new_matrix(tile, (rows, rows), (columns, columns), precision, order, memory_class),
        )
    }

    /// Adds a matrix with padding.
    pub fn push_attention_buffer(
        &mut self,
        tile: u16,
        logical_rows: u32,
        physical_rows: u32,
        logical_columns: u32,
        physical_columns: u32,
        order: ElementOrder,
    ) -> (r: ExpansionResult<LowShardId>)
        ensures
            yielded(
                r,
                final(self)@,
                push_block(
                    old(self)@,
                    matrix_block(
                        tile,
                        (logical_rows, physical_rows),
                        (logical_columns, physical_columns),
                        Precision::F16,
                        order,
                        MemoryClass::Ipu21Standard,
                    ),
                ),
            ),
    {
        self.push_shard(
            new_matrix(
                tile,
                (logical_rows, physical_rows),
                (logical_columns, physical_columns),
                Precision::F16,
                order,
                MemoryClass::Ipu21Standard,
            ),
        )
    }

    fn find_with_rectangle(
        &self,
        ids: &Vec<LowShardId>,
        extents: &Vec<ShardExtent>,
        tile: u16,
        local: bool,
    ) -> (r: Option<LowShardId>)
        ensures
            r == first_with_rectangle(self@.shards, ids@, extents@, tile, local, 0),
    {
        broadcast use group_deep;

        let mut k: usize = 0;
        while k < ids.len()
            invariant
                k <= ids@.len(),
                first_with_rectangle(self@.shards, ids@, extents@, tile, local, 0)
                    == first_with_rectangle(
                    self@.shards,
                    ids@,
                    extents@,
                    tile,
                    local,
                    k as int,
                ),
            decreases ids@.len() - k,
        {
            let at: usize = ids[k].0 as usize;
            if at < self.shards.len() && same_extents(
                self.shards[at].extents.as_slice(),
                extents.as_slice(),
            ) && (!local || self.shards[at].tile == tile) {
                return Some(ids[k]);
            }
            k += 1;
        }
        None
    }

    /// The block of a value that holds the same rectangle as another block.
    pub fn corresponding_shard(&self, value: MidValueId, other: LowShardId) -> (r: ExpansionResult<
        LowShardId,
    >)
        ensures
            r == corresponding_block(self@, value, other),
    {
        let block = self.block(other)?;
        let ids = self.allocation_shards(value)?;
        match self.find_with_rectangle(&ids, &block.extents, block.tile, true) {
            Some(id) => Ok(id),
            None => match self.find_with_rectangle(&ids, &block.extents, block.tile, false) {
                Some(id) => Ok(id),
                None => Err(ExpansionError::UnknownValue(value)),
            },
        }
    }
}

} // verus!
