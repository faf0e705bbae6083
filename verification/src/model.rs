//! What normalisation means: the recipes that a record stands for, the order
//! in which its identifiers are met, and the records that cannot be handled.
use vstd::prelude::*;
use crate::interner::{intern_position, intern_strings, SymbolId};
use crate::json::recipe::{Document, Record, Slot, Stack};
use crate::recipe_db::{keep_first, register_all, Registration, Staging};
use crate::sql::ItemType;
use crate::types::{named_component, NamedComponent, NamedRecipe};

verus! {

/// A slot with no stack left after the null placeholders are gone names no
/// ingredient at all.
pub open spec fn is_filled(slot: Slot) -> bool {
    slot.stacks.len() > 0
}

/// A slot is covariant for a count when it holds exactly that many stacks:
/// stack `i` of every such slot belongs to variant `i`.
pub open spec fn is_covariant(slot: Slot, count: nat) -> bool {
    is_filled(slot) && slot.stacks.len() == count
}

/// An item output slot with several stacks cannot be one output: it makes
/// the record a family of variants.
pub open spec fn is_trigger(slot: Slot) -> bool {
    is_filled(slot) && !slot.is_input && slot.stacks.len() != 1
}

/// The alternatives that a slot of a document offers.
pub open spec fn named_slot(slot: Slot, kind: ItemType) -> Seq<NamedComponent> {
    slot.stacks.map_values(|s: Stack| named_component(kind, s))
}

/// The input slot that a plain item slot contributes.
pub open spec fn plain_input(slot: Slot, count: nat) -> Option<Seq<NamedComponent>> {
    if is_filled(slot) && !is_covariant(slot, count) && slot.is_input {
        Some(named_slot(slot, ItemType::Item))
    } else {
        None
    }
}

/// The output that a plain item slot contributes.
pub open spec fn plain_output(slot: Slot, count: nat) -> Option<NamedComponent> {
    if is_filled(slot) && !is_covariant(slot, count) && !slot.is_input {
        Some(named_component(ItemType::Item, slot.stacks[0]))
    } else {
        None
    }
}

/// The input slot that a fluid slot contributes.
pub open spec fn fluid_input(slot: Slot) -> Option<Seq<NamedComponent>> {
    if is_filled(slot) && slot.is_input {
        Some(named_slot(slot, ItemType::Fluid))
    } else {
        None
    }
}

/// The output that a fluid slot contributes.
pub open spec fn fluid_output(slot: Slot) -> Option<NamedComponent> {
    if is_filled(slot) && !slot.is_input {
        Some(named_component(ItemType::Fluid, slot.stacks[0]))
    } else {
        None
    }
}

/// The input slots that every variant of a record shares: its plain item
/// inputs, then its fluid inputs.
pub open spec fn template_inputs(record: Record, count: nat) -> Seq<Seq<NamedComponent>> {
    record.items.filter_map(|s: Slot| plain_input(s, count)) + record.fluids.filter_map(
        |s: Slot| fluid_input(s),
    )
}

/// The outputs that every variant of a record shares: its plain item
/// outputs, then its fluid outputs.
pub open spec fn template_outputs(record: Record, count: nat) -> Seq<NamedComponent> {
    record.items.filter_map(|s: Slot| plain_output(s, count)) + record.fluids.filter_map(
        |s: Slot| fluid_output(s),
    )
}

/// The covariant slots of one direction among `items`, in order.
pub open spec fn covariant_slots(items: Seq<Slot>, count: nat, inputs: bool) -> Seq<Slot> {
    items.filter(|s: Slot| is_covariant(s, count) && s.is_input == inputs)
}

/// What stack `i` of each of `slots` adds to a recipe's inputs: a slot of
/// its own, with that stack as its only alternative.
pub open spec fn variant_inputs(slots: Seq<Slot>, i: int) -> Seq<Seq<NamedComponent>> {
    slots.map_values(|s: Slot| seq![named_component(ItemType::Item, s.stacks[i])])
}

/// What stack `i` of each of `slots` adds to a recipe's outputs.
pub open spec fn variant_outputs(slots: Seq<Slot>, i: int) -> Seq<NamedComponent> {
    slots.map_values(|s: Slot| named_component(ItemType::Item, s.stacks[i]))
}

/// The identifiers met when stack `i` of each of `slots` is taken.
pub open spec fn stacks_trace(slots: Seq<Slot>, i: int) -> Seq<Registration> {
    slots.flat_map(|s: Slot| stack_trace(s, ItemType::Item, i))
}

/// Variant `i` of a record: the template, then stack `i` of each covariant
/// input slot as a slot of its own, and stack `i` of each covariant output
/// slot as an output. Stacks at the same position belong together; they are
/// never combined across positions.
pub open spec fn variant(record: Record, count: nat, i: int) -> NamedRecipe {
    NamedRecipe {
        inputs: template_inputs(record, count) + variant_inputs(
            covariant_slots(record.items, count, true),
            i,
        ),
        outputs: template_outputs(record, count) + variant_outputs(
            covariant_slots(record.items, count, false),
            i,
        ),
    }
}

/// The variants of a record for a covariant count, one for each position.
pub open spec fn expansion(record: Record, count: nat) -> Seq<NamedRecipe> {
    Seq::new(count, |i: int| variant(record, count, i))
}

/// The recipe that a record without covariance stands for. No filled slot
/// holds zero stacks, so it is the template for the count zero.
pub open spec fn direct_recipe(record: Record) -> NamedRecipe {
    variant(record, 0, 0)
}

/// The slots among `items` that make their record a family of variants.
pub open spec fn triggers(items: Seq<Slot>) -> Seq<Slot> {
    items.filter(|s: Slot| is_trigger(s))
}

/// The expansions that the triggers among `items` set off, one after the
/// other.
pub open spec fn expansions(record: Record, items: Seq<Slot>) -> Seq<NamedRecipe> {
    triggers(items).flat_map(|s: Slot| expansion(record, s.stacks.len()))
}

/// The recipes that a record stands for: the direct recipe where no slot is
/// a trigger; otherwise, for each trigger in turn, the expansion for its
/// number of stacks, and no direct recipe.
pub open spec fn record_recipes(record: Record) -> Seq<NamedRecipe> {
    if triggers(record.items).len() == 0 {
        seq![direct_recipe(record)]
    } else {
        expansions(record, record.items)
    }
}

/// The recipes that a document stands for, record by record.
pub open spec fn document_recipes(document: Document) -> Seq<NamedRecipe> {
    document.records.flat_map(|r: Record| record_recipes(r))
}

/// Whether every filled fluid output slot among `fluids` holds one fluid.
pub open spec fn single_fluid_outputs(fluids: Seq<Slot>) -> bool {
    forall|k: int|
        0 <= k < fluids.len() && is_filled(#[trigger] fluids[k]) && !fluids[k].is_input
            ==> fluids[k].stacks.len() == 1
}

/// A record can be expanded for a count when each of its filled item output
/// slots is covariant or holds one stack, and each of its filled fluid
/// output slots holds one fluid. Only one axis of covariance is handled.
pub open spec fn expandable(record: Record, count: nat) -> bool {
    &&& forall|k: int|
        0 <= k < record.items.len() && is_filled(#[trigger] record.items[k])
            && !record.items[k].is_input ==> record.items[k].stacks.len() == count
            || record.items[k].stacks.len() == 1
    &&& single_fluid_outputs(record.fluids)
}

/// A record can be normalised when every filled fluid output slot holds one
/// fluid, and it can be expanded for each of its triggers.
pub open spec fn supported(record: Record) -> bool {
    &&& single_fluid_outputs(record.fluids)
    &&& forall|k: int|
        0 <= k < record.items.len() && is_trigger(#[trigger] record.items[k]) ==> expandable(
            record,
            record.items[k].stacks.len(),
        )
}

/// A document can be normalised when each of its records can.
pub open spec fn document_supported(document: Document) -> bool {
    forall|k: int| 0 <= k < document.records.len() ==> supported(#[trigger] document.records[k])
}

/// The identifiers that a slot names, in order, each with the kind under
/// which the slot is read.
pub open spec fn slot_trace(slot: Slot, kind: ItemType) -> Seq<Registration> {
    slot.stacks.map_values(|s: Stack| Registration { name: s.name, kind })
}

/// The identifier of one stack of a slot.
pub open spec fn stack_trace(slot: Slot, kind: ItemType, i: int) -> Seq<Registration> {
    seq![Registration { name: slot.stacks[i].name, kind }]
}

/// The identifiers met at a plain item slot while the template is built:
/// all of an input slot, the first stack of an output slot.
pub open spec fn plain_trace(slot: Slot, count: nat) -> Seq<Registration> {
    if is_filled(slot) && !is_covariant(slot, count) {
        if slot.is_input {
            slot_trace(slot, ItemType::Item)
        } else {
            stack_trace(slot, ItemType::Item, 0)
        }
    } else {
        Seq::empty()
    }
}

/// The identifiers met at a fluid slot: all of an input slot, the first
/// fluid of an output slot.
pub open spec fn fluid_trace(slot: Slot) -> Seq<Registration> {
    if is_filled(slot) {
        if slot.is_input {
            slot_trace(slot, ItemType::Fluid)
        } else {
            stack_trace(slot, ItemType::Fluid, 0)
        }
    } else {
        Seq::empty()
    }
}

/// The identifiers met while the template is built.
pub open spec fn template_trace(record: Record, count: nat) -> Seq<Registration> {
    record.items.flat_map(|s: Slot| plain_trace(s, count)) + record.fluids.flat_map(
        |s: Slot| fluid_trace(s),
    )
}

/// The identifiers met while variant `i` is completed: stack `i` of each
/// covariant input slot, then of each covariant output slot.
pub open spec fn variant_trace(record: Record, count: nat, i: int) -> Seq<Registration> {
    stacks_trace(covariant_slots(record.items, count, true), i) + stacks_trace(
        covariant_slots(record.items, count, false),
        i,
    )
}

/// The identifiers met while the first `n` variants are completed.
pub open spec fn variants_trace(record: Record, count: nat, n: nat) -> Seq<Registration> {
    Seq::new(n, |i: int| variant_trace(record, count, i)).flatten()
}

/// The identifiers met by an expansion, in order.
pub open spec fn expansion_trace(record: Record, count: nat) -> Seq<Registration> {
    template_trace(record, count) + variants_trace(record, count, count)
}

/// The identifiers met at an item slot of a record: the slot's own stacks;
/// then, at an output slot, those of the expansion if the slot is a trigger,
/// and the first stack once more.
pub open spec fn item_trace(record: Record, slot: Slot) -> Seq<Registration> {
    if is_filled(slot) {
        if slot.is_input {
            slot_trace(slot, ItemType::Item)
        } else if slot.stacks.len() != 1 {
            slot_trace(slot, ItemType::Item) + expansion_trace(record, slot.stacks.len())
                + stack_trace(slot, ItemType::Item, 0)
        } else {
            slot_trace(slot, ItemType::Item) + stack_trace(slot, ItemType::Item, 0)
        }
    } else {
        Seq::empty()
    }
}

/// The identifiers met in a record, in order.
pub open spec fn record_trace(record: Record) -> Seq<Registration> {
    record.items.flat_map(|s: Slot| item_trace(record, s)) + record.fluids.flat_map(
        |s: Slot| fluid_trace(s),
    )
}

/// The identifiers met in the records of a document, in order.
pub open spec fn document_trace(document: Document) -> Seq<Registration> {
    document.records.flat_map(|r: Record| record_trace(r))
}

/// Whether the interner still has a symbol for every new identifier among
/// `entries`.
pub open spec fn fits(state: Staging, entries: Seq<Registration>) -> bool {
    register_all(state, entries).symbols.len() <= u32::MAX
}

/// The staging database once a document's machine is registered: its
/// texture is interned, and the category names the machine unless the
/// symbol already has a machine name.
pub open spec fn with_machine(state: Staging, document: Document) -> Staging {
    Staging {
        symbols: intern_strings(state.symbols, document.texture),
        machines: keep_first(
            state.machines,
            intern_position(state.symbols, document.texture) as usize,
            document.category,
        ),
        ..state
    }
}

/// The symbol of a document's machine.
pub open spec fn machine_symbol(state: Staging, document: Document) -> SymbolId {
    SymbolId { index: intern_position(state.symbols, document.texture) as usize }
}

/// `after` holds the recipes of `before` and then, for `machine`, recipes
/// that read as `added` through its interner.
pub open spec fn staged(
    before: Staging,
    after: Staging,
    machine: SymbolId,
    added: Seq<NamedRecipe>,
) -> bool {
    &&& after.recipes.len() == before.recipes.len() + added.len()
    &&& forall|i: int| 0 <= i < before.recipes.len() ==> after.recipes[i] == before.recipes[i]
    &&& forall|i: int|
        0 <= i < added.len() ==> {
            let recipe = #[trigger] after.recipes[before.recipes.len() + i];
            &&& recipe.machine == machine
            &&& recipe.known(after)
            &&& recipe.describe(after.symbols) == added[i]
        }
}

/// `after` differs from `before` by the identifiers of `entries`, met in
/// order, and by nothing else but its recipes.
pub open spec fn registered(before: Staging, after: Staging, entries: Seq<Registration>) -> bool {
    after == (Staging { recipes: after.recipes, ..register_all(before, entries) })
}

/// The staging database after one tooltip entry: the identifier is interned,
/// and the tooltip names the item unless its symbol already has a name.
pub open spec fn with_tooltip(state: Staging, entry: (Seq<char>, Seq<char>)) -> Staging {
    Staging {
        symbols: intern_strings(state.symbols, entry.0),
        names: keep_first(
            state.names,
            intern_position(state.symbols, entry.0) as usize,
            entry.1,
        ),
        ..state
    }
}

/// The staging database after a run of tooltip entries, taken in order.
pub open spec fn with_tooltips(state: Staging, entries: Seq<(Seq<char>, Seq<char>)>) -> Staging
    decreases entries.len(),
{
    if entries.len() == 0 {
        state
    } else {
        with_tooltip(with_tooltips(state, entries.drop_last()), entries.last())
    }
}

/// What a list of tooltip entries says.
pub open spec fn tooltip_views(entries: Seq<(String, String)>) -> Seq<(Seq<char>, Seq<char>)> {
    entries.map_values(|entry: (String, String)| (entry.0@, entry.1@))
}

/// What the importer does with a file of the export directory.
#[derive(Debug, Clone, Copy, PartialEq, Eq, Structural)]
pub enum ExportFile {
    /// The tooltip map: identifiers and their human-readable names.
    Tooltips,
    /// The lookup map: the tooltip map turned round, which is skipped.
    Lookup,
    /// A recipe document.
    Recipes,
}

} // verus!
