//! Items that lie in a room.
use vstd::prelude::*;
use crate::room::GridPos;

verus! {

/// The kinds of item.
#[derive(Clone, Copy, Debug, PartialEq, Eq, Structural)]
pub enum ItemKind {
    Ration,
    Whetstone,
    Runa,
}

/// An item to spawn: where, and of which kind.
#[derive(Clone, Copy, Debug, PartialEq, Eq, Structural)]
pub struct ItemDef {
    pub pos: GridPos,
    pub kind: ItemKind,
}

} // verus!
