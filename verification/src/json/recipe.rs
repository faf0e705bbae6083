//! One export document: the recipes of a single machine category.
use vstd::prelude::*;

verus! {

/// The picture that the game draws behind a machine's recipes. Its texture
/// path identifies the machine.
#[derive(Debug, Clone, PartialEq, Eq)]
pub struct BackgroundImage {
    pub width: i32,
    pub height: i32,
    pub tex: String,
}

/// A quantity of one item.
#[derive(Debug, Clone, PartialEq, Eq)]
pub struct ItemStack {
    pub amount: i32,
    pub ty: String,
}

/// A quantity of one fluid.
#[derive(Debug, Clone, PartialEq, Eq)]
pub struct Fluid {
    pub amount: i32,
    pub ty: String,
}

/// An item slot of a record: the stacks that may stand in it.
#[derive(Debug, Clone, PartialEq, Eq)]
pub struct IngredientItem {
    pub p: u32,
    pub is_input: bool,
    pub stacks: Vec<ItemStack>,
}

/// A fluid slot of a record: the fluids that may stand in it.
#[derive(Debug, Clone, PartialEq, Eq)]
pub struct IngredientFluid {
    pub p: u32,
    pub is_input: bool,
    pub fluids: Vec<Fluid>,
}

/// One raw recipe record.
#[derive(Debug, Clone, PartialEq, Eq)]
pub struct Recipe {
    pub ingredient_items: Vec<IngredientItem>,
    pub ingredient_fluids: Vec<IngredientFluid>,
}

/// A whole export document.
#[derive(Debug, Clone, PartialEq, Eq)]
pub struct CraftingInstance {
    pub category: String,
    pub bg: BackgroundImage,
    pub recipes: Vec<Recipe>,
}

/// What a stack says: how much, of which identifier.
pub struct Stack {
    pub amount: i32,
    pub name: Seq<char>,
}

/// What a slot says: its direction and its stacks, in order.
pub struct Slot {
    pub is_input: bool,
    pub stacks: Seq<Stack>,
}

/// What a record says: its item slots and its fluid slots.
pub struct Record {
    pub items: Seq<Slot>,
    pub fluids: Seq<Slot>,
}

/// What a document says.
pub struct Document {
    pub category: Seq<char>,
    pub texture: Seq<char>,
    pub records: Seq<Record>,
}

impl View for ItemStack {
    type V = Stack;

    open spec fn view(&self) -> Stack {
        Stack { amount: self.amount, name: self.ty@ }
    }
}

impl View for Fluid {
    type V = Stack;

    open spec fn view(&self) -> Stack {
        Stack { amount: self.amount, name: self.ty@ }
    }
}

impl View for IngredientItem {
    type V = Slot;

    open spec fn view(&self) -> Slot {
        Slot { is_input: self.is_input, stacks: self.stacks@.map_values(|s: ItemStack| s@) }
    }
}

impl View for IngredientFluid {
    type V = Slot;

    open spec fn view(&self) -> Slot {
        Slot { is_input: self.is_input, stacks: self.fluids@.map_values(|s: Fluid| s@) }
    }
}

impl View for Recipe {
    type V = Record;

    open spec fn view(&self) -> Record {
        Record {
            items: self.ingredient_items@.map_values(|s: IngredientItem| s@),
            fluids: self.ingredient_fluids@.map_values(|s: IngredientFluid| s@),
        }
    }
}

impl View for CraftingInstance {
    type V = Document;

    open spec fn view(&self) -> Document {
        Document {
            category: self.category@,
            texture: self.bg.tex@,
            records: self.recipes@.map_values(|r: Recipe| r@),
        }
    }
}

} // verus!
