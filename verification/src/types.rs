//! Normalised recipes.
use vstd::prelude::*;
use crate::interner::SymbolId;
use crate::json::recipe;
use crate::recipe_db::{register, RecipeDatabase, Registration, Staging};
use crate::sql::ItemType;

verus! {

/// A crafting ingredient
#[derive(PartialEq, Eq, Debug, Clone, Copy, Structural)]
pub enum RecipeComponent {
    ItemStack { count: u32, name: SymbolId },
    Fluid { amount: u32, name: SymbolId },
}

/// A crafting ingredient with its identifier spelled out.
pub struct NamedComponent {
    pub kind: ItemType,
    pub quantity: u32,
    pub name: Seq<char>,
}

/// The ingredient that a stack of a document stands for, read as an item or
/// as a fluid. The quantity is the stack's amount as an unsigned number: a
/// negative amount wraps round.
pub open spec fn named_component(kind: ItemType, stack: recipe::Stack) -> NamedComponent {
    NamedComponent { kind, quantity: stack.amount as u32, name: stack.name }
}

impl RecipeComponent {
    /// The symbol of the ingredient.
    pub open spec fn symbol(self) -> SymbolId {
        match self {
            RecipeComponent::ItemStack { name, .. } => name,
            RecipeComponent::Fluid { name, .. } => name,
        }
    }

    /// Whether the ingredient is known to a staging database: its symbol has
    /// been handed out by the interner, and has a kind.
    pub open spec fn known(self, state: Staging) -> bool {
        &&& self.symbol().index < state.symbols.len()
        &&& state.kinds.contains_key(self.symbol().index)
    }

    /// The ingredient with its symbol read back through the interner.
    pub open spec fn describe(self, symbols: Seq<Seq<char>>) -> NamedComponent {
        match self {
            RecipeComponent::ItemStack { count, name } => NamedComponent {
                kind: ItemType::Item,
                quantity: count,
                name: symbols[name.index as int],
            },
            RecipeComponent::Fluid { amount, name } => NamedComponent {
                kind: ItemType::Fluid,
                quantity: amount,
                name: symbols[name.index as int],
            },
        }
    }

    /// Create a RecipeComponent from a JSON Fluid
    pub fn from_fluid(db: &mut RecipeDatabase, fluid: &recipe::Fluid) -> (component: Self)
        requires
            old(db).wf(),
            old(db).has_room_for(fluid@.name),
        ensures
            final(db).wf(),
            final(db)@ == register(
                old(db)@,
                Registration { name: fluid@.name, kind: ItemType::Fluid },
            ),
            final(db)@.extends(old(db)@),
            component.known(final(db)@),
            component.describe(final(db)@.symbols) == named_component(ItemType::Fluid, fluid@),
    {
        proof {
            crate::interner::law_intern_extends(db@.symbols, fluid@.name);
        }
        let name = db.get_or_intern(fluid.ty.as_str());
        db.associate_type(name, ItemType::Fluid);
        RecipeComponent::Fluid {
            amount: #[verifier::truncate]
            (fluid.amount as u32),
            name,
        }
    }

    /// Create a RecipeComponent from a JSON ItemStack
    pub fn from_item(db: &mut RecipeDatabase, item: &recipe::ItemStack) -> (component: Self)
        requires
            old(db).wf(),
            old(db).has_room_for(item@.name),
        ensures
            final(db).wf(),
            final(db)@ == register(
                old(db)@,
                Registration { name: item@.name, kind: ItemType::Item },
            ),
            final(db)@.extends(old(db)@),
            component.known(final(db)@),
            component.describe(final(db)@.symbols) == named_component(ItemType::Item, item@),
    {
        proof {
            crate::interner::law_intern_extends(db@.symbols, item@.name);
        }
        let name = db.get_or_intern(item.ty.as_str());
        db.associate_type(name, ItemType::Item);
        RecipeComponent::ItemStack {
            count: #[verifier::truncate]
            (item.amount as u32),
            name,
        }
    }

    pub fn get_name(&self) -> (name: SymbolId)
        ensures
            name == self.symbol(),
    {
        match *self {
            RecipeComponent::ItemStack { name, .. } => name,
            RecipeComponent::Fluid { name, .. } => name,
        }
    }

    /// The quantity as the store keeps it. The store counts in `i32`: a
    /// quantity from `2^31` on wraps round.
    pub open spec fn quantity(self) -> i32 {
        match self {
            RecipeComponent::ItemStack { count, .. } => count as i32,
            RecipeComponent::Fluid { amount, .. } => amount as i32,
        }
    }

    pub fn get_quantity(&self) -> (quantity: i32)
        ensures
            quantity == self.quantity(),
    {
        match *self {
            RecipeComponent::ItemStack { count, .. } => #[verifier::truncate]
            (count as i32),
            RecipeComponent::Fluid { amount, .. } => #[verifier::truncate]
            (amount as i32),
        }
    }
}

/// A slot that holds crafting ingredients
#[derive(PartialEq, Eq, Debug)]
pub struct CraftingSlot {
    pub allowed_elements: Vec<RecipeComponent>,
}

impl View for CraftingSlot {
    type V = Seq<RecipeComponent>;

    open spec fn view(&self) -> Seq<RecipeComponent> {
        self.allowed_elements@
    }
}

impl CraftingSlot {
    pub fn new() -> (slot: CraftingSlot)
        ensures
            slot@ == Seq::<RecipeComponent>::empty(),
    {
        CraftingSlot { allowed_elements: Vec::new() }
    }
}

impl Clone for CraftingSlot {
    fn clone(&self) -> (copy: Self)
        ensures
            copy@ == self@,
    {
        let mut allowed_elements: Vec<RecipeComponent> = Vec::new();
        let mut i: usize = 0;
        while i < self.allowed_elements.len()
            invariant
                i <= self.allowed_elements.len(),
                allowed_elements@ == self.allowed_elements@.take(i as int),
            decreases self.allowed_elements.len() - i,
        {
            allowed_elements.push(self.allowed_elements[i]);
            i += 1;
        }
        CraftingSlot { allowed_elements }
    }
}

/// What a recipe says: its machine, the alternatives of each input slot, and
/// its outputs.
pub struct RecipeView {
    pub machine: SymbolId,
    pub inputs: Seq<Seq<RecipeComponent>>,
    pub outputs: Seq<RecipeComponent>,
}

/// A recipe's slots and outputs with every identifier spelled out.
pub struct NamedRecipe {
    pub inputs: Seq<Seq<NamedComponent>>,
    pub outputs: Seq<NamedComponent>,
}

/// The alternatives of a slot, read back through the interner.
pub open spec fn describe_all(elements: Seq<RecipeComponent>, symbols: Seq<Seq<char>>) -> Seq<
    NamedComponent,
> {
    elements.map_values(|c: RecipeComponent| c.describe(symbols))
}

/// Whether every ingredient among `elements` is known to a staging database.
pub open spec fn all_known(elements: Seq<RecipeComponent>, state: Staging) -> bool {
    forall|i: int| 0 <= i < elements.len() ==> (#[trigger] elements[i]).known(state)
}

impl RecipeView {
    /// Whether every ingredient in the recipe's slots and outputs is known
    /// to a staging database.
    pub open spec fn known(self, state: Staging) -> bool {
        &&& forall|i: int| 0 <= i < self.inputs.len() ==> all_known(#[trigger] self.inputs[i], state)
        &&& all_known(self.outputs, state)
    }

    /// The recipe's slots and outputs, read back through the interner.
    pub open spec fn describe(self, symbols: Seq<Seq<char>>) -> NamedRecipe {
        NamedRecipe {
            inputs: self.inputs.map_values(|slot: Seq<RecipeComponent>| describe_all(slot, symbols)),
            outputs: describe_all(self.outputs, symbols),
        }
    }
}

/// An individual recipe
#[derive(PartialEq, Eq, Debug)]
pub struct Recipe {
    pub machine: SymbolId,
    pub inputs: Vec<CraftingSlot>,
    pub outputs: Vec<RecipeComponent>,
}

impl View for Recipe {
    type V = RecipeView;

    open spec fn view(&self) -> RecipeView {
        RecipeView {
            machine: self.machine,
            inputs: self.inputs@.map_values(|slot: CraftingSlot| slot@),
            outputs: self.outputs@,
        }
    }
}

impl Recipe {
    pub fn new(machine: SymbolId) -> (recipe: Self)
        ensures
            recipe@ == (RecipeView {
                machine,
                inputs: Seq::<Seq<RecipeComponent>>::empty(),
                outputs: Seq::<RecipeComponent>::empty(),
            }),
    {
        let recipe = Recipe { machine, inputs: Vec::new(), outputs: Vec::new() };
        assert(recipe@.inputs =~= Seq::<Seq<RecipeComponent>>::empty());
        recipe
    }
}

impl Clone for Recipe {
    fn clone(&self) -> (copy: Self)
        ensures
            copy@ == self@,
    {
        let mut inputs: Vec<CraftingSlot> = Vec::new();
        let mut i: usize = 0;
        while i < self.inputs.len()
            invariant
                i <= self.inputs.len(),
                inputs@.len() == i,
                forall|k: int| 0 <= k < i ==> (#[trigger] inputs@[k])@ == self.inputs@[k]@,
            decreases self.inputs.len() - i,
        {
            inputs.push(self.inputs[i].clone());
            i += 1;
        }
        let mut outputs: Vec<RecipeComponent> = Vec::new();
        let mut j: usize = 0;
        while j < self.outputs.len()
            invariant
                j <= self.outputs.len(),
                outputs@ == self.outputs@.take(j as int),
            decreases self.outputs.len() - j,
        {
            outputs.push(self.outputs[j]);
            j += 1;
        }
        let copy = Recipe { machine: self.machine, inputs, outputs };
        assert(copy@.inputs =~= self@.inputs);
        assert(copy@.outputs =~= self@.outputs);
        copy
    }
}

} // verus!
