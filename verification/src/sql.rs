//! The rows of the relational store.
use vstd::prelude::*;

verus! {

/// Whether an identifier names an item or a fluid.
#[derive(Debug, Copy, Clone, PartialEq, Eq, Structural)]
pub enum ItemType {
    Item,
    Fluid,
}

#[derive(Debug, Clone, PartialEq, Eq)]
pub struct Item {
    pub id: i32,
    pub ty: ItemType,
    pub human_name: String,
    pub minecraft_id: String,
}

#[derive(Debug, Clone, Copy, PartialEq, Eq)]
pub struct NewItem<'a> {
    pub human_name: &'a str,
    pub minecraft_id: &'a str,
    pub ty: ItemType,
}

#[derive(Debug, Clone, PartialEq, Eq)]
pub struct Machine {
    pub id: i32,
    pub human_name: String,
    pub minecraft_id: String,
}

#[derive(Debug, Clone, Copy, PartialEq, Eq)]
pub struct NewMachine<'a> {
    pub human_name: &'a str,
    pub minecraft_id: &'a str,
}

#[derive(Debug, Clone, Copy, PartialEq, Eq, Structural)]
pub struct Recipe {
    pub id: i32,
    pub machine: i32,
}

#[derive(Debug, Clone, Copy, PartialEq, Eq, Structural)]
pub struct NewRecipe {
    pub machine: i32,
}

#[derive(Debug, Clone, Copy, PartialEq, Eq, Structural)]
pub struct Output {
    pub id: i32,
    pub recipe: i32,
    pub quantity: i32,
    pub item: i32,
}

#[derive(Debug, Clone, Copy, PartialEq, Eq, Structural)]
pub struct NewOutput {
    pub recipe: i32,
    pub quantity: i32,
    pub item: i32,
}

#[derive(Debug, Clone, Copy, PartialEq, Eq, Structural)]
pub struct InputSlot {
    pub id: i32,
    pub for_recipe: i32,
}

#[derive(Debug, Clone, Copy, PartialEq, Eq, Structural)]
pub struct NewInputSlot {
    pub for_recipe: i32,
}

#[derive(Debug, Clone, Copy, PartialEq, Eq, Structural)]
pub struct CraftingComponent {
    pub id: i32,
    pub crafting_slot: i32,
    pub quantity: i32,
    pub item: i32,
}

#[derive(Debug, Clone, Copy, PartialEq, Eq, Structural)]
pub struct NewCraftingComponent {
    pub crafting_slot: i32,
    pub quantity: i32,
    pub item: i32,
}

/// What an item row says.
pub struct ItemRow {
    pub human_name: Seq<char>,
    pub minecraft_id: Seq<char>,
    pub ty: ItemType,
}

/// What a machine row says.
pub struct MachineRow {
    pub human_name: Seq<char>,
    pub minecraft_id: Seq<char>,
}

impl<'a> View for NewItem<'a> {
    type V = ItemRow;

    open spec fn view(&self) -> ItemRow {
        ItemRow { human_name: self.human_name@, minecraft_id: self.minecraft_id@, ty: self.ty }
    }
}

impl<'a> View for NewMachine<'a> {
    type V = MachineRow;

    open spec fn view(&self) -> MachineRow {
        MachineRow { human_name: self.human_name@, minecraft_id: self.minecraft_id@ }
    }
}

} // verus!
