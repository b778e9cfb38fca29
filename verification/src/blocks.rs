//! The registry of materials: what a leaf of the graph is made of, and whether
//! a moving corner stops at it.

use vstd::prelude::*;
use crate::graph::{CellData, Index};
use crate::math::Axes;

verus! {

/// What happens to a corner that meets a material.
#[derive(Clone, Copy, Debug, PartialEq, Eq, Structural)]
pub enum OnTouch {
    /// The corner passes through.
    Ignore,
    /// The corner is stopped along the flagged axes.
    Resist(Axes),
}

/// A material. `color` is `0xRRGGBB`.
#[derive(Clone, Debug)]
pub struct Block {
    pub name: String,
    pub index: Index,
    pub collision: OnTouch,
    pub color: u32,
}

/// The materials, each at the position of its index.
pub struct BlockPalette {
    pub blocks: Vec<Block>,
}

pub const BLACK: u32 = 0x000000;

pub const GREEN: u32 = 0x00E330;

pub const BROWN: u32 = 0x7F6A4F;

pub const BLUE: u32 = 0x0079F1;

pub const GRAY: u32 = 0x828282;

impl BlockPalette {
    /// Whether `blocks` holds, at position `at`, the material of that index
    /// with the given name, behaviour and color.
    pub open spec fn registers(
        blocks: Seq<Block>,
        at: int,
        name: Seq<char>,
        collision: OnTouch,
        color: u32,
    ) -> bool {
        &&& blocks[at].name@ == name
        &&& blocks[at].index == Index(at as usize)
        &&& blocks[at].collision == collision
        &&& blocks[at].color == color
    }

    pub open spec fn spec_is_solid_index(&self, index: Index) -> bool {
        index.0 < self.blocks@.len() && self.blocks@[index.0 as int].collision is Resist
    }

    pub open spec fn spec_is_solid_cell(&self, cell: Option<CellData>) -> bool {
        match cell {
            Some(data) => self.spec_is_solid_index(data.pointer.pointer.index),
            None => false,
        }
    }

    /// The five stock materials: air and water let corners through; grass,
    /// dirt and metal stop them on both axes.
    pub fn new() -> (r: Self)
        ensures
            r.blocks@.len() == 5,
            Self::registers(r.blocks@, 0, "Air"@, OnTouch::Ignore, BLACK),
            Self::registers(r.blocks@, 1, "Grass"@, OnTouch::Resist(Axes { x: true, y: true }), GREEN),
            Self::registers(r.blocks@, 2, "Dirt"@, OnTouch::Resist(Axes { x: true, y: true }), BROWN),
            Self::registers(r.blocks@, 3, "Water"@, OnTouch::Ignore, BLUE),
            Self::registers(r.blocks@, 4, "Metal"@, OnTouch::Resist(Axes { x: true, y: true }), GRAY),
    {
        let mut blocks: Vec<Block> = Vec::new();
        blocks.push(
            Block {
                name: "Air".to_owned(),
                index: Index(0),
                collision: OnTouch::Ignore,
                color: BLACK,
            },
        );
        blocks.push(
            Block {
                name: "Grass".to_owned(),
                index: Index(1),
                collision: OnTouch::Resist(Axes::both()),
                color: GREEN,
            },
        );
        blocks.push(
            Block {
                name: "Dirt".to_owned(),
                index: Index(2),
                collision: OnTouch::Resist(Axes::both()),
                color: BROWN,
            },
        );
        blocks.push(
            Block {
                name: "Water".to_owned(),
                index: Index(3),
                collision: OnTouch::Ignore,
                color: BLUE,
            },
        );
        blocks.push(
            Block {
                name: "Metal".to_owned(),
                index: Index(4),
                collision: OnTouch::Resist(Axes::both()),
                color: GRAY,
            },
        );
        Self { blocks }
    }

    /// Whether the material of `index` stops corners. An index that no
    /// material is registered under stops nothing.
    pub fn is_solid_index(&self, index: Index) -> (r: bool)
        ensures
            r == self.spec_is_solid_index(index),
    {
        if index.0 < self.blocks.len() {
            match self.blocks[index.0].collision {
                OnTouch::Resist(_) => true,
                OnTouch::Ignore => false,
            }
        } else {
            false
        }
    }

    /// Whether `cell` is there and made of a material that stops corners.
    pub fn is_solid_cell(&self, cell: Option<CellData>) -> (r: bool)
        ensures
            r == self.spec_is_solid_cell(cell),
    {
        match cell {
            Some(data) => self.is_solid_index(data.pointer.pointer.index),
            None => false,
        }
    }
}

} // verus!
