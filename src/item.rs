use vstd::prelude::*;

verus! {

/// The kind of tool an item is.
#[derive(Clone, Copy, Debug, PartialEq, Eq, Structural)]
pub enum ToolType {
    Sword,
    Axe,
    Pickaxe,
    Hoe,
    Shovel,
    Bow,
}

} // verus!
