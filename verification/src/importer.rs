//! Turning export documents into staged recipes.
use vstd::prelude::*;
use crate::interner::{law_intern_extends, SymbolId};
use crate::json::recipe;
use crate::json::recipe::{Record, Slot};
use crate::lemmas::{
    lemma_covariant_slots_hold, lemma_covariant_slots_step, lemma_describe_all_stable,
    lemma_direct_recipe, lemma_expansions_step, lemma_fits_after, lemma_fits_moves, lemma_fits_next,
    lemma_fits_prefix, lemma_fits_step, lemma_flat_map_prefix, lemma_prefix_extend,
    lemma_prefix_shift, lemma_prefix_trans, lemma_push_input, lemma_push_output,
    lemma_recipe_stable, lemma_register_all_grows, lemma_register_all_moves,
    lemma_register_all_push, lemma_registered_by_run, lemma_registered_grows, lemma_registered_then,
    lemma_single_registration, lemma_stacks_trace_step, lemma_staged_push, lemma_staged_stable,
    lemma_staged_then, lemma_tooltips_fit, lemma_variant_step, lemma_variants_prefix,
    lemma_variants_trace_step,
};
use crate::model::{
    covariant_slots, direct_recipe, document_recipes, document_supported, document_trace,
    expandable, expansion, expansion_trace, expansions, fits, fluid_input, fluid_output,
    fluid_trace, is_filled, is_trigger, item_trace, machine_symbol, named_slot, plain_input,
    plain_output, plain_trace, record_recipes, record_trace, registered, single_fluid_outputs,
    slot_trace, stack_trace, stacks_trace, staged, supported, template_inputs, template_outputs,
    template_trace, tooltip_views, triggers, variant, variant_inputs, variant_outputs,
    variant_trace, variants_trace, with_machine, with_tooltips, ExportFile,
};
use crate::recipe_db::{register_all, RecipeDatabase, Registration, Staging};
use crate::sql::ItemType;
use crate::types::{
    all_known, describe_all, named_component, CraftingSlot, NamedRecipe, Recipe, RecipeComponent,
};

verus! {

// Convert a list of items into a slot that accepts any of those items
pub fn slot_from_items(db: &mut RecipeDatabase, ingredient: &recipe::IngredientItem) -> (slot:
    CraftingSlot)
    requires
        old(db).wf(),
        fits(old(db)@, slot_trace(ingredient@, ItemType::Item)),
    ensures
        final(db).wf(),
        final(db)@ == register_all(old(db)@, slot_trace(ingredient@, ItemType::Item)),
        all_known(slot@, final(db)@),
        describe_all(slot@, final(db)@.symbols) == named_slot(ingredient@, ItemType::Item),
{
    let mut slot = CraftingSlot::new();
    let ghost start = db@;
    let ghost trace = slot_trace(ingredient@, ItemType::Item);
    let ghost wanted = named_slot(ingredient@, ItemType::Item);
    let mut i: usize = 0;
    while i < ingredient.stacks.len()
        invariant
            i <= ingredient.stacks.len(),
            db.wf(),
            start.symbols.no_duplicates(),
            trace == slot_trace(ingredient@, ItemType::Item),
            wanted == named_slot(ingredient@, ItemType::Item),
            fits(start, trace),
            db@ == register_all(start, trace.take(i as int)),
            slot@.len() == i,
            all_known(slot@, db@),
            describe_all(slot@, db@.symbols) == wanted.take(i as int),
        decreases ingredient.stacks.len() - i,
    {
        let ghost before = db@;
        proof {
            lemma_fits_step(start, trace, i as int);
        }
        let component = RecipeComponent::from_item(db, &ingredient.stacks[i]);
        proof {
            lemma_describe_all_stable(slot@, before, db@);
        }
        slot.allowed_elements.push(component);
        i += 1;
        proof {
            assert(describe_all(slot@, db@.symbols) =~= wanted.take(i as int));
        }
    }
    proof {
        assert(trace.take(i as int) =~= trace);
        assert(wanted.take(i as int) =~= wanted);
    }
    slot
}

// Convert a list of fluids into a slot that accepts any of those fluids
pub fn slot_from_fluids(db: &mut RecipeDatabase, ingredient: &recipe::IngredientFluid) -> (slot:
    CraftingSlot)
    requires
        old(db).wf(),
        fits(old(db)@, slot_trace(ingredient@, ItemType::Fluid)),
    ensures
        final(db).wf(),
        final(db)@ == register_all(old(db)@, slot_trace(ingredient@, ItemType::Fluid)),
        all_known(slot@, final(db)@),
        describe_all(slot@, final(db)@.symbols) == named_slot(ingredient@, ItemType::Fluid),
{
    let mut slot = CraftingSlot::new();
    let ghost start = db@;
    let ghost trace = slot_trace(ingredient@, ItemType::Fluid);
    let ghost wanted = named_slot(ingredient@, ItemType::Fluid);
    let mut i: usize = 0;
    while i < ingredient.fluids.len()
        invariant
            i <= ingredient.fluids.len(),
            db.wf(),
            start.symbols.no_duplicates(),
            trace == slot_trace(ingredient@, ItemType::Fluid),
            wanted == named_slot(ingredient@, ItemType::Fluid),
            fits(start, trace),
            db@ == register_all(start, trace.take(i as int)),
            slot@.len() == i,
            all_known(slot@, db@),
            describe_all(slot@, db@.symbols) == wanted.take(i as int),
        decreases ingredient.fluids.len() - i,
    {
        let ghost before = db@;
        proof {
            lemma_fits_step(start, trace, i as int);
        }
        let component = RecipeComponent::from_fluid(db, &ingredient.fluids[i]);
        proof {
            lemma_describe_all_stable(slot@, before, db@);
        }
        slot.allowed_elements.push(component);
        i += 1;
        proof {
            assert(describe_all(slot@, db@.symbols) =~= wanted.take(i as int));
        }
    }
    proof {
        assert(trace.take(i as int) =~= trace);
        assert(wanted.take(i as int) =~= wanted);
    }
    slot
}


/// Adds the fluid slots of a record to a recipe: each filled input slot as a
/// slot of all its fluids, the one fluid of each filled output slot as an
/// output. Fluids take no part in covariance.
fn add_fluid_slots(db: &mut RecipeDatabase, target: &mut Recipe, jrecipe: &recipe::Recipe)
    requires
        old(db).wf(),
        old(target)@.known(old(db)@),
        single_fluid_outputs(jrecipe@.fluids),
        fits(old(db)@, jrecipe@.fluids.flat_map(|s: Slot| fluid_trace(s))),
    ensures
        final(db).wf(),
        final(db)@ == register_all(old(db)@, jrecipe@.fluids.flat_map(|s: Slot| fluid_trace(s))),
        final(target)@.machine == old(target)@.machine,
        final(target)@.known(final(db)@),
        final(target)@.describe(final(db)@.symbols).inputs == old(target)@.describe(
            old(db)@.symbols,
        ).inputs + jrecipe@.fluids.filter_map(|s: Slot| fluid_input(s)),
        final(target)@.describe(final(db)@.symbols).outputs == old(target)@.describe(
            old(db)@.symbols,
        ).outputs + jrecipe@.fluids.filter_map(|s: Slot| fluid_output(s)),
{
    let ghost start = db@;
    let ghost fluids = jrecipe@.fluids;
    let ghost trace = fluids.flat_map(|s: Slot| fluid_trace(s));
    let ghost inputs = target@.describe(db@.symbols).inputs;
    let ghost outputs = target@.describe(db@.symbols).outputs;
    let mut j: usize = 0;
    while j < jrecipe.ingredient_fluids.len()
        invariant
            j <= jrecipe.ingredient_fluids.len(),
            fluids == jrecipe@.fluids,
            fluids.len() == jrecipe.ingredient_fluids.len(),
            single_fluid_outputs(fluids),
            db.wf(),
            start.symbols.no_duplicates(),
            trace == fluids.flat_map(|s: Slot| fluid_trace(s)),
            fits(start, trace),
            db@ == register_all(start, fluids.take(j as int).flat_map(|s: Slot| fluid_trace(s))),
            target@.machine == old(target)@.machine,
            target@.known(db@),
            target@.describe(db@.symbols).inputs == inputs + fluids.take(j as int).filter_map(
                |s: Slot| fluid_input(s),
            ),
            target@.describe(db@.symbols).outputs == outputs + fluids.take(j as int).filter_map(
                |s: Slot| fluid_output(s),
            ),
        decreases jrecipe.ingredient_fluids.len() - j,
    {
        let fluid_slot = &jrecipe.ingredient_fluids[j];
        let ghost before = db@;
        let ghost target_before = target@;
        let ghost done = fluids.take(j as int).flat_map(|s: Slot| fluid_trace(s));
        proof {
            assert(fluids[j as int] == fluid_slot@);
            fluids.lemma_flat_map_take_append(|s: Slot| fluid_trace(s), j as int);
            fluids.lemma_filter_map_take_succ(|s: Slot| fluid_input(s), j as int);
            fluids.lemma_filter_map_take_succ(|s: Slot| fluid_output(s), j as int);
            lemma_flat_map_prefix(fluids, |s: Slot| fluid_trace(s), j as int + 1);
            lemma_fits_next(start, trace, done, fluid_trace(fluid_slot@));
        }
        if fluid_slot.fluids.len() == 0 {
        } else if fluid_slot.is_input {
            let slot = slot_from_fluids(db, fluid_slot);
            proof {
                lemma_register_all_grows(before, slot_trace(fluid_slot@, ItemType::Fluid));
                lemma_recipe_stable(target_before, before, db@);
            }
            target.inputs.push(slot);
            proof {
                assert(target@.inputs =~= target_before.inputs.push(slot@));
                lemma_push_input(target_before, target@, slot@, db@);
            }
        } else {
            // we don't handle covariance for fluids, so there is only one output
            proof {
                assert(stack_trace(fluid_slot@, ItemType::Fluid, 0) =~= seq![
                    Registration { name: fluid_slot.fluids[0]@.name, kind: ItemType::Fluid },
                ]);
                lemma_register_all_push(
                    before,
                    Seq::empty(),
                    Registration { name: fluid_slot.fluids[0]@.name, kind: ItemType::Fluid },
                );
            }
            let component = RecipeComponent::from_fluid(db, &fluid_slot.fluids[0]);
            proof {
                lemma_recipe_stable(target_before, before, db@);
            }
            target.outputs.push(component);
            proof {
                lemma_push_output(target_before, target@, component, db@);
            }
        }
        j += 1;
    }
    proof {
        assert(fluids.take(j as int) =~= fluids);
    }
}

/// What a list of item slots says.
pub open spec fn slot_views(slots: Seq<&recipe::IngredientItem>) -> Seq<Slot> {
    slots.map_values(|r: &recipe::IngredientItem| r@)
}

/// Completes one variant: stack `i` of each covariant input slot becomes a
/// slot of its own, stack `i` of each covariant output slot an output.
fn add_variant_stacks(
    db: &mut RecipeDatabase,
    target: &mut Recipe,
    covariant_inputs: &Vec<&recipe::IngredientItem>,
    covariant_outputs: &Vec<&recipe::IngredientItem>,
    i: usize,
)
    requires
        old(db).wf(),
        old(target)@.known(old(db)@),
        forall|k: int|
            0 <= k < covariant_inputs@.len() ==> i < (#[trigger] covariant_inputs@[k]).stacks@.len(),
        forall|k: int|
            0 <= k < covariant_outputs@.len() ==> i < (
            #[trigger] covariant_outputs@[k]).stacks@.len(),
        fits(
            old(db)@,
            stacks_trace(slot_views(covariant_inputs@), i as int) + stacks_trace(
                slot_views(covariant_outputs@),
                i as int,
            ),
        ),
    ensures
        final(db).wf(),
        final(db)@ == register_all(
            old(db)@,
            stacks_trace(slot_views(covariant_inputs@), i as int) + stacks_trace(
                slot_views(covariant_outputs@),
                i as int,
            ),
        ),
        final(target)@.machine == old(target)@.machine,
        final(target)@.known(final(db)@),
        final(target)@.describe(final(db)@.symbols).inputs == old(target)@.describe(
            old(db)@.symbols,
        ).inputs + variant_inputs(slot_views(covariant_inputs@), i as int),
        final(target)@.describe(final(db)@.symbols).outputs == old(target)@.describe(
            old(db)@.symbols,
        ).outputs + variant_outputs(slot_views(covariant_outputs@), i as int),
{
    let ghost start = db@;
    let ghost ins = slot_views(covariant_inputs@);
    let ghost outs = slot_views(covariant_outputs@);
    let ghost whole = stacks_trace(ins, i as int) + stacks_trace(outs, i as int);
    let ghost inputs = target@.describe(db@.symbols).inputs;
    let ghost outputs = target@.describe(db@.symbols).outputs;
    let mut a: usize = 0;
    while a < covariant_inputs.len()
        invariant
            a <= covariant_inputs.len(),
            ins == slot_views(covariant_inputs@),
            outs == slot_views(covariant_outputs@),
            whole == stacks_trace(ins, i as int) + stacks_trace(outs, i as int),
            forall|k: int|
                0 <= k < covariant_inputs@.len() ==> i < (
                #[trigger] covariant_inputs@[k]).stacks@.len(),
            db.wf(),
            start.symbols.no_duplicates(),
            fits(start, whole),
            db@ == register_all(start, stacks_trace(ins.take(a as int), i as int)),
            target@.machine == old(target)@.machine,
            target@.known(db@),
            target@.describe(db@.symbols).inputs == inputs + variant_inputs(
                ins.take(a as int),
                i as int,
            ),
            target@.describe(db@.symbols).outputs == outputs,
        decreases covariant_inputs.len() - a,
    {
        let input = covariant_inputs[a];
        let ghost before = db@;
        let ghost target_before = target@;
        proof {
            assert(ins[a as int] == input@);
            assert(input@.stacks[i as int] == input.stacks[i as int]@);
            lemma_stacks_trace_step(ins, i as int, a as int);
            lemma_variant_step(ins, i as int, a as int);
            lemma_prefix_extend(
                stacks_trace(ins.take(a as int + 1), i as int),
                stacks_trace(ins, i as int),
                stacks_trace(outs, i as int),
            );
            lemma_fits_next(
                start,
                whole,
                stacks_trace(ins.take(a as int), i as int),
                stack_trace(input@, ItemType::Item, i as int),
            );
            lemma_single_registration(before, input@, ItemType::Item, i as int);
        }
        let mut slot = CraftingSlot::new();
        let component = RecipeComponent::from_item(db, &input.stacks[i]);
        slot.allowed_elements.push(component);
        proof {
            lemma_recipe_stable(target_before, before, db@);
            assert(describe_all(slot@, db@.symbols) =~= seq![
                named_component(ItemType::Item, input@.stacks[i as int]),
            ]);
        }
        target.inputs.push(slot);
        proof {
            assert(target@.inputs =~= target_before.inputs.push(slot@));
            lemma_push_input(target_before, target@, slot@, db@);
        }
        a += 1;
    }
    proof {
        assert(ins.take(a as int) =~= ins);
    }
    let ghost done_inputs = stacks_trace(ins, i as int);
    let ghost all_inputs = target@.describe(db@.symbols).inputs;
    let mut b: usize = 0;
    while b < covariant_outputs.len()
        invariant
            b <= covariant_outputs.len(),
            ins == slot_views(covariant_inputs@),
            outs == slot_views(covariant_outputs@),
            done_inputs == stacks_trace(ins, i as int),
            whole == done_inputs + stacks_trace(outs, i as int),
            forall|k: int|
                0 <= k < covariant_outputs@.len() ==> i < (
                #[trigger] covariant_outputs@[k]).stacks@.len(),
            db.wf(),
            start.symbols.no_duplicates(),
            fits(start, whole),
            db@ == register_all(start, done_inputs + stacks_trace(outs.take(b as int), i as int)),
            target@.machine == old(target)@.machine,
            target@.known(db@),
            target@.describe(db@.symbols).inputs == all_inputs,
            target@.describe(db@.symbols).outputs == outputs + variant_outputs(
                outs.take(b as int),
                i as int,
            ),
        decreases covariant_outputs.len() - b,
    {
        let output = covariant_outputs[b];
        let ghost before = db@;
        let ghost target_before = target@;
        proof {
            assert(outs[b as int] == output@);
            assert(output@.stacks[i as int] == output.stacks[i as int]@);
            lemma_stacks_trace_step(outs, i as int, b as int);
            lemma_variant_step(outs, i as int, b as int);
            lemma_prefix_shift(
                done_inputs,
                stacks_trace(outs.take(b as int + 1), i as int),
                stacks_trace(outs, i as int),
            );
            assert(done_inputs + stacks_trace(outs.take(b as int + 1), i as int) =~= (done_inputs
                + stacks_trace(outs.take(b as int), i as int)) + stack_trace(
                output@,
                ItemType::Item,
                i as int,
            ));
            lemma_fits_next(
                start,
                whole,
                done_inputs + stacks_trace(outs.take(b as int), i as int),
                stack_trace(output@, ItemType::Item, i as int),
            );
            lemma_single_registration(before, output@, ItemType::Item, i as int);
        }
        let component = RecipeComponent::from_item(db, &output.stacks[i]);
        proof {
            lemma_recipe_stable(target_before, before, db@);
        }
        target.outputs.push(component);
        proof {
            lemma_push_output(target_before, target@, component, db@);
        }
        b += 1;
    }
    proof {
        assert(outs.take(b as int) =~= outs);
    }
}

/// Expands a record with covariant slots: a slot that holds exactly
/// `covariant_count` stacks stores one stack for each variant. Everything
/// else goes into a template, and variant `i` is the template completed with
/// stack `i` of every covariant slot. Exactly `covariant_count` recipes are
/// staged.
pub fn handle_covariant_recipe(
    db: &mut RecipeDatabase,
    machine: SymbolId,
    jrecipe: &recipe::Recipe,
    covariant_count: usize,
)
    requires
        old(db).wf(),
        expandable(jrecipe@, covariant_count as nat),
        covariant_count > 0 ==> old(db)@.machines.contains_key(machine.index),
        fits(old(db)@, expansion_trace(jrecipe@, covariant_count as nat)),
    ensures
        final(db).wf(),
        registered(old(db)@, final(db)@, expansion_trace(jrecipe@, covariant_count as nat)),
        staged(old(db)@, final(db)@, machine, expansion(jrecipe@, covariant_count as nat)),
        final(db)@.recipes.len() == old(db)@.recipes.len() + covariant_count,
        final(db)@.extends(old(db)@),
        final(db)@.machines == old(db)@.machines,
        final(db)@.names == old(db)@.names,
{
    let ghost start = db@;
    let ghost record = jrecipe@;
    let ghost count = covariant_count as nat;
    let ghost whole = expansion_trace(record, count);
    let ghost items_trace = record.items.flat_map(|s: Slot| plain_trace(s, count));
    let ghost fluids_trace = record.fluids.flat_map(|s: Slot| fluid_trace(s));
    let mut template = Recipe::new(machine);
    let mut covariant_inputs: Vec<&recipe::IngredientItem> = Vec::new();
    let mut covariant_outputs: Vec<&recipe::IngredientItem> = Vec::new();

    proof {
        assert(items_trace.is_prefix_of(items_trace + fluids_trace));
        lemma_prefix_extend(
            items_trace,
            template_trace(record, count),
            variants_trace(record, count, count),
        );
        lemma_fits_prefix(start, whole, items_trace);
    }

    // Push all the item slots that aren't covariant in to the template
    let mut k: usize = 0;
    while k < jrecipe.ingredient_items.len()
        invariant
            k <= jrecipe.ingredient_items.len(),
            record == jrecipe@,
            record.items.len() == jrecipe.ingredient_items.len(),
            count == covariant_count,
            expandable(record, count),
            items_trace == record.items.flat_map(|s: Slot| plain_trace(s, count)),
            db.wf(),
            start.symbols.no_duplicates(),
            fits(start, items_trace),
            db@ == register_all(
                start,
                record.items.take(k as int).flat_map(|s: Slot| plain_trace(s, count)),
            ),
            template@.machine == machine,
            template@.known(db@),
            template@.describe(db@.symbols).inputs == record.items.take(k as int).filter_map(
                |s: Slot| plain_input(s, count),
            ),
            template@.describe(db@.symbols).outputs == record.items.take(k as int).filter_map(
                |s: Slot| plain_output(s, count),
            ),
            slot_views(covariant_inputs@) == covariant_slots(
                record.items.take(k as int),
                count,
                true,
            ),
            slot_views(covariant_outputs@) == covariant_slots(
                record.items.take(k as int),
                count,
                false,
            ),
        decreases jrecipe.ingredient_items.len() - k,
    {
        let item_slot = &jrecipe.ingredient_items[k];
        let ghost before = db@;
        let ghost template_before = template@;
        let ghost done = record.items.take(k as int).flat_map(|s: Slot| plain_trace(s, count));
        proof {
            assert(record.items[k as int] == item_slot@);
            record.items.lemma_flat_map_take_append(|s: Slot| plain_trace(s, count), k as int);
            record.items.lemma_filter_map_take_succ(|s: Slot| plain_input(s, count), k as int);
            record.items.lemma_filter_map_take_succ(|s: Slot| plain_output(s, count), k as int);
            lemma_covariant_slots_step(record.items, count, true, k as int);
            lemma_covariant_slots_step(record.items, count, false, k as int);
            lemma_flat_map_prefix(record.items, |s: Slot| plain_trace(s, count), k as int + 1);
            lemma_fits_next(start, items_trace, done, plain_trace(item_slot@, count));
        }
        if item_slot.stacks.len() == 0 {
            // We don't care about slots with nothing in them
        } else if item_slot.stacks.len() == covariant_count {
            // This is one of the stacks that is covariant. Keep a reference to it in the right list
            if item_slot.is_input {
                covariant_inputs.push(item_slot);
                proof {
                    assert(slot_views(covariant_inputs@) =~= covariant_slots(
                        record.items.take(k as int),
                        count,
                        true,
                    ).push(item_slot@));
                }
            } else {
                covariant_outputs.push(item_slot);
                proof {
                    assert(slot_views(covariant_outputs@) =~= covariant_slots(
                        record.items.take(k as int),
                        count,
                        false,
                    ).push(item_slot@));
                }
            }
        } else if item_slot.is_input {
            // Otherwise, add it to the template
            let slot = slot_from_items(db, item_slot);
            proof {
                lemma_register_all_grows(before, slot_trace(item_slot@, ItemType::Item));
                lemma_recipe_stable(template_before, before, db@);
            }
            template.inputs.push(slot);
            proof {
                assert(template@.inputs =~= template_before.inputs.push(slot@));
                lemma_push_input(template_before, template@, slot@, db@);
            }
        } else {
            // We can only deal with one kind of covariance at a time
            proof {
                lemma_single_registration(before, item_slot@, ItemType::Item, 0);
            }
            let component = RecipeComponent::from_item(db, &item_slot.stacks[0]);
            proof {
                lemma_recipe_stable(template_before, before, db@);
            }
            template.outputs.push(component);
            proof {
                lemma_push_output(template_before, template@, component, db@);
            }
        }
        k += 1;
    }
    proof {
        assert(record.items.take(k as int) =~= record.items);
        lemma_prefix_extend(
            items_trace + fluids_trace,
            template_trace(record, count),
            variants_trace(record, count, count),
        );
        lemma_fits_next(start, whole, items_trace, fluids_trace);
    }

    // Blindly push all of the fluids onto the template
    add_fluid_slots(db, &mut template, jrecipe);

    proof {
        lemma_covariant_slots_hold(record.items, count, true);
        lemma_covariant_slots_hold(record.items, count, false);
        lemma_register_all_grows(start, template_trace(record, count));
        assert(variants_trace(record, count, 0) =~= Seq::<Registration>::empty());
        assert(template_trace(record, count) + variants_trace(record, count, 0) =~= template_trace(
            record,
            count,
        ));
        assert(expansion(record, count).take(0) =~= Seq::<NamedRecipe>::empty());
        assert forall|a: int| 0 <= a < covariant_inputs@.len() implies (
        #[trigger] covariant_inputs@[a]).stacks@.len() == count by {
            assert(slot_views(covariant_inputs@)[a] == covariant_inputs@[a]@);
        }
        assert forall|a: int| 0 <= a < covariant_outputs@.len() implies (
        #[trigger] covariant_outputs@[a]).stacks@.len() == count by {
            assert(slot_views(covariant_outputs@)[a] == covariant_outputs@[a]@);
        }
    }

    // Using the template, push out recipe variants for all the covariants.
    let mut i: usize = 0;
    while i < covariant_count
        invariant
            i <= covariant_count,
            record == jrecipe@,
            count == covariant_count,
            whole == expansion_trace(record, count),
            start.wf(),
            fits(start, whole),
            covariant_count > 0 ==> start.machines.contains_key(machine.index),
            db.wf(),
            registered(
                start,
                db@,
                template_trace(record, count) + variants_trace(record, count, i as nat),
            ),
            staged(start, db@, machine, expansion(record, count).take(i as int)),
            template@.machine == machine,
            template@.known(db@),
            template@.describe(db@.symbols).inputs == template_inputs(record, count),
            template@.describe(db@.symbols).outputs == template_outputs(record, count),
            slot_views(covariant_inputs@) == covariant_slots(record.items, count, true),
            slot_views(covariant_outputs@) == covariant_slots(record.items, count, false),
            forall|a: int|
                0 <= a < covariant_inputs@.len() ==> (
                #[trigger] covariant_inputs@[a]).stacks@.len() == count,
            forall|a: int|
                0 <= a < covariant_outputs@.len() ==> (
                #[trigger] covariant_outputs@[a]).stacks@.len() == count,
        decreases covariant_count - i,
    {
        let ghost before = db@;
        let ghost done = template_trace(record, count) + variants_trace(record, count, i as nat);
        let mut recipe = template.clone();
        proof {
            lemma_variants_trace_step(record, count, i as nat);
            assert(done + variant_trace(record, count, i as int) =~= template_trace(record, count)
                + variants_trace(record, count, (i + 1) as nat));
            lemma_variants_prefix(record, count, (i + 1) as nat);
            lemma_prefix_shift(
                template_trace(record, count),
                variants_trace(record, count, (i + 1) as nat),
                variants_trace(record, count, count),
            );
            lemma_fits_next(start, whole, done, variant_trace(record, count, i as int));
            lemma_register_all_grows(start, done);
            assert(before == (Staging { recipes: before.recipes, ..register_all(start, done) }));
            lemma_fits_moves(register_all(start, done), before, variant_trace(record, count, i as int));
        }

        add_variant_stacks(db, &mut recipe, &covariant_inputs, &covariant_outputs, i);

        proof {
            lemma_register_all_moves(
                register_all(start, done),
                before,
                variant_trace(record, count, i as int),
            );
            lemma_register_all_grows(before, variant_trace(record, count, i as int));
            lemma_recipe_stable(template@, before, db@);
            lemma_staged_stable(start, before, db@, machine, expansion(record, count).take(i as int));
        }
        let ghost middle = db@;
        db.add_recipe(recipe);
        proof {
            lemma_staged_push(
                start,
                middle,
                db@,
                machine,
                expansion(record, count).take(i as int),
                recipe@,
                variant(record, count, i as int),
            );
            assert(expansion(record, count).take(i as int + 1) =~= expansion(record, count).take(
                i as int,
            ).push(variant(record, count, i as int)));
        }
        i += 1;
    }
    proof {
        assert(expansion(record, count).take(i as int) =~= expansion(record, count));
        lemma_registered_grows(start, db@, whole);
    }
}

/// What an item slot sets off: the expansion for its number of stacks if it
/// is a trigger, nothing otherwise.
pub open spec fn set_off(record: Record, slot: Slot) -> Seq<NamedRecipe> {
    if is_trigger(slot) {
        expansion(record, slot.stacks.len())
    } else {
        Seq::empty()
    }
}

/// Handles one item slot of a record on the direct path: a filled input slot
/// joins the recipe's inputs, the first stack of a filled output slot its
/// outputs. An output slot with several stacks is a trigger: the record is
/// expanded for that number of stacks, and `true` is returned.
fn import_item_slot(
    db: &mut RecipeDatabase,
    target: &mut Recipe,
    machine: SymbolId,
    jrecipe: &recipe::Recipe,
    k: usize,
) -> (expanded: bool)
    requires
        old(db).wf(),
        supported(jrecipe@),
        k < jrecipe.ingredient_items.len(),
        old(db)@.machines.contains_key(machine.index),
        old(target)@.known(old(db)@),
        fits(old(db)@, item_trace(jrecipe@, jrecipe@.items[k as int])),
    ensures
        final(db).wf(),
        registered(old(db)@, final(db)@, item_trace(jrecipe@, jrecipe@.items[k as int])),
        expanded == is_trigger(jrecipe@.items[k as int]),
        staged(old(db)@, final(db)@, machine, set_off(jrecipe@, jrecipe@.items[k as int])),
        final(target)@.machine == old(target)@.machine,
        final(target)@.known(final(db)@),
        final(target)@.describe(final(db)@.symbols).inputs == old(target)@.describe(
            old(db)@.symbols,
        ).inputs + (match plain_input(jrecipe@.items[k as int], 0) {
            Some(slot) => seq![slot],
            None => Seq::empty(),
        }),
        final(target)@.describe(final(db)@.symbols).outputs == old(target)@.describe(
            old(db)@.symbols,
        ).outputs + (match plain_output(jrecipe@.items[k as int], 0) {
            Some(component) => seq![component],
            None => Seq::empty(),
        }),
{
    let item_slot = &jrecipe.ingredient_items[k];
    let ghost start = db@;
    let ghost record = jrecipe@;
    let ghost target_before = target@;
    let ghost whole = item_trace(record, item_slot@);
    let ghost own = slot_trace(item_slot@, ItemType::Item);
    let ghost first = stack_trace(item_slot@, ItemType::Item, 0);
    let ghost grown = expansion_trace(record, item_slot@.stacks.len());
    let ghost inputs = target@.describe(db@.symbols).inputs;
    let ghost outputs = target@.describe(db@.symbols).outputs;
    proof {
        assert(record.items[k as int] == item_slot@);
        assert(start == register_all(start, Seq::empty()));
    }
    if item_slot.stacks.len() == 0 {
        proof {
            assert(inputs + Seq::empty() =~= inputs);
            assert(outputs + Seq::empty() =~= outputs);
        }
        return false;
    }
    proof {
        assert(own.is_prefix_of(whole));
        assert(Seq::<Registration>::empty() + own =~= own);
        lemma_fits_after(start, start, whole, Seq::empty(), own);
    }
    let slot = slot_from_items(db, item_slot);
    let ghost interned = db@;
    proof {
        lemma_registered_by_run(start, own);
        lemma_registered_grows(start, interned, own);
        lemma_recipe_stable(target_before, start, interned);
    }
    if item_slot.is_input {
        target.inputs.push(slot);
        proof {
            assert(target@.inputs =~= target_before.inputs.push(slot@));
            lemma_push_input(target_before, target@, slot@, db@);
            assert(outputs + Seq::empty() =~= outputs);
        }
        return false;
    }
    let mut expanded = false;
    if item_slot.stacks.len() != 1 {
        proof {
            assert(is_trigger(item_slot@));
            assert((own + grown).is_prefix_of(whole));
            lemma_fits_after(start, interned, whole, own, grown);
        }
        handle_covariant_recipe(db, machine, jrecipe, item_slot.stacks.len());
        expanded = true;
        proof {
            lemma_registered_grows(interned, db@, grown);
            lemma_registered_then(start, interned, db@, own, grown);
            lemma_recipe_stable(target_before, interned, db@);
            assert(staged(start, db@, machine, set_off(record, item_slot@)));
        }
    }
    let ghost grown_up = db@;
    let ghost met = if item_slot@.stacks.len() != 1 {
        own + grown
    } else {
        own
    };
    proof {
        assert(met + first =~= whole);
        lemma_fits_after(start, grown_up, whole, met, first);
        lemma_single_registration(grown_up, item_slot@, ItemType::Item, 0);
        lemma_registered_grows(start, grown_up, met);
    }
    let component = RecipeComponent::from_item(db, &item_slot.stacks[0]);
    proof {
        lemma_registered_by_run(grown_up, first);
        lemma_registered_then(start, grown_up, db@, met, first);
        lemma_recipe_stable(target_before, grown_up, db@);
        lemma_staged_stable(start, grown_up, db@, machine, set_off(record, item_slot@));
    }
    target.outputs.push(component);
    proof {
        lemma_push_output(target_before, target@, component, db@);
        assert(inputs + Seq::empty() =~= inputs);
        assert(outputs.push(component.describe(db@.symbols)) =~= outputs + seq![
            named_component(ItemType::Item, item_slot@.stacks[0]),
        ]);
    }
    expanded
}

/// Normalises one record for a registered machine. A record without a
/// trigger is staged as one recipe. At each trigger the record is expanded
/// for the trigger's number of stacks, and the record itself is not staged.
pub fn import_record(db: &mut RecipeDatabase, machine: SymbolId, jrecipe: &recipe::Recipe)
    requires
        old(db).wf(),
        supported(jrecipe@),
        old(db)@.machines.contains_key(machine.index),
        fits(old(db)@, record_trace(jrecipe@)),
    ensures
        final(db).wf(),
        registered(old(db)@, final(db)@, record_trace(jrecipe@)),
        staged(old(db)@, final(db)@, machine, record_recipes(jrecipe@)),
        final(db)@.extends(old(db)@),
        final(db)@.machines == old(db)@.machines,
        final(db)@.names == old(db)@.names,
{
    let ghost start = db@;
    let ghost record = jrecipe@;
    let ghost whole = record_trace(record);
    let ghost items_trace = record.items.flat_map(|s: Slot| item_trace(record, s));
    let ghost fluids_trace = record.fluids.flat_map(|s: Slot| fluid_trace(s));
    let mut discard_recipe = false;
    let mut recipe = Recipe::new(machine);
    proof {
        assert(record.items.take(0).flat_map(|s: Slot| item_trace(record, s)) =~= Seq::empty());
        assert(triggers(record.items.take(0)) =~= Seq::empty());
        assert(expansions(record, record.items.take(0)) =~= Seq::empty());
        assert(items_trace.is_prefix_of(whole));
        assert(record.items.take(0).filter_map(|s: Slot| plain_input(s, 0)) =~= Seq::empty());
        assert(record.items.take(0).filter_map(|s: Slot| plain_output(s, 0)) =~= Seq::empty());
    }
    let mut k: usize = 0;
    while k < jrecipe.ingredient_items.len()
        invariant
            k <= jrecipe.ingredient_items.len(),
            record == jrecipe@,
            record.items.len() == jrecipe.ingredient_items.len(),
            supported(record),
            whole == record_trace(record),
            items_trace == record.items.flat_map(|s: Slot| item_trace(record, s)),
            items_trace.is_prefix_of(whole),
            start.wf(),
            start.machines.contains_key(machine.index),
            fits(start, whole),
            db.wf(),
            registered(
                start,
                db@,
                record.items.take(k as int).flat_map(|s: Slot| item_trace(record, s)),
            ),
            staged(start, db@, machine, expansions(record, record.items.take(k as int))),
            discard_recipe == (triggers(record.items.take(k as int)).len() > 0),
            recipe@.machine == machine,
            recipe@.known(db@),
            recipe@.describe(db@.symbols).inputs == record.items.take(k as int).filter_map(
                |s: Slot| plain_input(s, 0),
            ),
            recipe@.describe(db@.symbols).outputs == record.items.take(k as int).filter_map(
                |s: Slot| plain_output(s, 0),
            ),
        decreases jrecipe.ingredient_items.len() - k,
    {
        let ghost before = db@;
        let ghost done = record.items.take(k as int).flat_map(|s: Slot| item_trace(record, s));
        let ghost slot = record.items[k as int];
        proof {
            record.items.lemma_flat_map_take_append(|s: Slot| item_trace(record, s), k as int);
            record.items.lemma_filter_map_take_succ(|s: Slot| plain_input(s, 0), k as int);
            record.items.lemma_filter_map_take_succ(|s: Slot| plain_output(s, 0), k as int);
            lemma_expansions_step(record, record.items, k as int);
            lemma_flat_map_prefix(record.items, |s: Slot| item_trace(record, s), k as int + 1);
            lemma_prefix_trans(done + item_trace(record, slot), items_trace, whole);
            lemma_registered_grows(start, before, done);
            lemma_fits_after(start, before, whole, done, item_trace(record, slot));
        }
        let expanded = import_item_slot(db, &mut recipe, machine, jrecipe, k);
        if expanded {
            discard_recipe = true;
        }
        proof {
            lemma_registered_grows(before, db@, item_trace(record, slot));
            lemma_registered_then(start, before, db@, done, item_trace(record, slot));
            lemma_staged_then(
                start,
                before,
                db@,
                machine,
                expansions(record, record.items.take(k as int)),
                set_off(record, slot),
            );
            assert(expansions(record, record.items.take(k as int)) + Seq::<NamedRecipe>::empty()
                =~= expansions(record, record.items.take(k as int)));
        }
        k += 1;
    }
    let ghost itemized = db@;
    proof {
        assert(record.items.take(k as int) =~= record.items);
        lemma_registered_grows(start, itemized, items_trace);
        lemma_fits_after(start, itemized, whole, items_trace, fluids_trace);
    }
    add_fluid_slots(db, &mut recipe, jrecipe);
    proof {
        lemma_registered_by_run(itemized, fluids_trace);
        lemma_registered_then(start, itemized, db@, items_trace, fluids_trace);
        lemma_registered_grows(start, db@, whole);
        lemma_staged_stable(start, itemized, db@, machine, expansions(record, record.items));
    }
    if !discard_recipe {
        let ghost complete = db@;
        db.add_recipe(recipe);
        proof {
            lemma_direct_recipe(record);
            lemma_staged_push(
                start,
                complete,
                db@,
                machine,
                expansions(record, record.items),
                recipe@,
                direct_recipe(record),
            );
            assert(expansions(record, record.items) =~= Seq::<NamedRecipe>::empty());
            assert(Seq::<NamedRecipe>::empty().push(direct_recipe(record)) =~= seq![
                direct_recipe(record),
            ]);
        }
    }
}

/// Normalises a whole export document. The machine is registered under the
/// symbol of its texture, with the category as its name unless that symbol
/// already has one; then each record is normalised in turn.
pub fn import_recipes(db: &mut RecipeDatabase, instance: &recipe::CraftingInstance)
    requires
        old(db).wf(),
        document_supported(instance@),
        fits(with_machine(old(db)@, instance@), document_trace(instance@)),
    ensures
        final(db).wf(),
        registered(with_machine(old(db)@, instance@), final(db)@, document_trace(instance@)),
        staged(
            old(db)@,
            final(db)@,
            machine_symbol(old(db)@, instance@),
            document_recipes(instance@),
        ),
        final(db)@.extends(old(db)@),
        final(db)@.machines == with_machine(old(db)@, instance@).machines,
        final(db)@.names == old(db)@.names,
{
    let ghost start = db@;
    let ghost document = instance@;
    let ghost base = with_machine(start, document);
    let ghost whole = document_trace(document);
    proof {
        law_intern_extends(start.symbols, document.texture);
        lemma_register_all_grows(base, whole);
    }
    let machine = db.get_or_intern(instance.bg.tex.as_str());
    db.add_machine(machine, instance.category.clone());
    proof {
        assert(db@ == base);
        assert(base == register_all(base, Seq::empty()));
        assert(document.records.take(0).flat_map(|r: Record| record_trace(r)) =~= Seq::empty());
        assert(document.records.take(0).flat_map(|r: Record| record_recipes(r)) =~= Seq::empty());
    }
    let mut r: usize = 0;
    while r < instance.recipes.len()
        invariant
            r <= instance.recipes.len(),
            document == instance@,
            document.records.len() == instance.recipes.len(),
            document_supported(document),
            whole == document_trace(document),
            base.wf(),
            base.machines.contains_key(machine.index),
            fits(base, whole),
            db.wf(),
            registered(
                base,
                db@,
                document.records.take(r as int).flat_map(|r: Record| record_trace(r)),
            ),
            staged(
                base,
                db@,
                machine,
                document.records.take(r as int).flat_map(|r: Record| record_recipes(r)),
            ),
        decreases instance.recipes.len() - r,
    {
        let jrecipe = &instance.recipes[r];
        let ghost before = db@;
        let ghost done = document.records.take(r as int).flat_map(|r: Record| record_trace(r));
        proof {
            assert(document.records[r as int] == jrecipe@);
            document.records.lemma_flat_map_take_append(|r: Record| record_trace(r), r as int);
            document.records.lemma_flat_map_take_append(|r: Record| record_recipes(r), r as int);
            lemma_flat_map_prefix(document.records, |r: Record| record_trace(r), r as int + 1);
            lemma_registered_grows(base, before, done);
            lemma_fits_after(base, before, whole, done, record_trace(jrecipe@));
        }
        import_record(db, machine, jrecipe);
        proof {
            lemma_registered_grows(before, db@, record_trace(jrecipe@));
            lemma_registered_then(base, before, db@, done, record_trace(jrecipe@));
            lemma_staged_then(
                base,
                before,
                db@,
                machine,
                document.records.take(r as int).flat_map(|r: Record| record_recipes(r)),
                record_recipes(jrecipe@),
            );
        }
        r += 1;
    }
    proof {
        assert(document.records.take(r as int) =~= document.records);
        lemma_registered_grows(base, db@, whole);
    }
}

/// Whether a record can be expanded for a covariant count.
pub fn is_expandable(jrecipe: &recipe::Recipe, covariant_count: usize) -> (ok: bool)
    ensures
        ok == expandable(jrecipe@, covariant_count as nat),
{
    let ghost record = jrecipe@;
    let mut k: usize = 0;
    while k < jrecipe.ingredient_items.len()
        invariant
            k <= jrecipe.ingredient_items.len(),
            record == jrecipe@,
            record.items.len() == jrecipe.ingredient_items.len(),
            forall|b: int|
                0 <= b < k && is_filled(#[trigger] record.items[b]) && !record.items[b].is_input
                    ==> record.items[b].stacks.len() == covariant_count
                    || record.items[b].stacks.len() == 1,
        decreases jrecipe.ingredient_items.len() - k,
    {
        let item_slot = &jrecipe.ingredient_items[k];
        proof {
            assert(record.items[k as int] == item_slot@);
        }
        let held: usize = item_slot.stacks.len();
        if held != 0 && !item_slot.is_input && held != covariant_count && held != 1 {
            return false;
        }
        k += 1;
    }
    has_single_fluid_outputs(jrecipe)
}

/// Whether every filled fluid output slot of a record holds one fluid.
pub fn has_single_fluid_outputs(jrecipe: &recipe::Recipe) -> (ok: bool)
    ensures
        ok == single_fluid_outputs(jrecipe@.fluids),
{
    let ghost fluids = jrecipe@.fluids;
    let mut j: usize = 0;
    while j < jrecipe.ingredient_fluids.len()
        invariant
            j <= jrecipe.ingredient_fluids.len(),
            fluids == jrecipe@.fluids,
            fluids.len() == jrecipe.ingredient_fluids.len(),
            forall|b: int|
                0 <= b < j && is_filled(#[trigger] fluids[b]) && !fluids[b].is_input
                    ==> fluids[b].stacks.len() == 1,
        decreases jrecipe.ingredient_fluids.len() - j,
    {
        let fluid_slot = &jrecipe.ingredient_fluids[j];
        proof {
            assert(fluids[j as int] == fluid_slot@);
        }
        let held: usize = fluid_slot.fluids.len();
        if held != 0 && !fluid_slot.is_input && held != 1 {
            return false;
        }
        j += 1;
    }
    true
}

/// Whether a record can be normalised: no fluid output slot with several
/// fluids, and no item output slots with different numbers of several
/// stacks.
pub fn is_supported(jrecipe: &recipe::Recipe) -> (ok: bool)
    ensures
        ok == supported(jrecipe@),
{
    if !has_single_fluid_outputs(jrecipe) {
        return false;
    }
    let ghost record = jrecipe@;
    let mut k: usize = 0;
    while k < jrecipe.ingredient_items.len()
        invariant
            k <= jrecipe.ingredient_items.len(),
            record == jrecipe@,
            record.items.len() == jrecipe.ingredient_items.len(),
            single_fluid_outputs(record.fluids),
            forall|t: int|
                0 <= t < k && is_trigger(#[trigger] record.items[t]) ==> expandable(
                    record,
                    record.items[t].stacks.len(),
                ),
        decreases jrecipe.ingredient_items.len() - k,
    {
        let item_slot = &jrecipe.ingredient_items[k];
        proof {
            assert(record.items[k as int] == item_slot@);
        }
        let held: usize = item_slot.stacks.len();
        if held != 0 && !item_slot.is_input && held != 1 {
            if !is_expandable(jrecipe, held) {
                return false;
            }
        }
        k += 1;
    }
    true
}

/// Whether every record of a document can be normalised.
pub fn is_supported_document(instance: &recipe::CraftingInstance) -> (ok: bool)
    ensures
        ok == document_supported(instance@),
{
    let ghost document = instance@;
    let mut r: usize = 0;
    while r < instance.recipes.len()
        invariant
            r <= instance.recipes.len(),
            document == instance@,
            document.records.len() == instance.recipes.len(),
            forall|k: int| 0 <= k < r ==> supported(#[trigger] document.records[k]),
        decreases instance.recipes.len() - r,
    {
        proof {
            assert(document.records[r as int] == instance.recipes[r as int]@);
        }
        if !is_supported(&instance.recipes[r]) {
            return false;
        }
        r += 1;
    }
    true
}

/// Takes the tooltips over: each identifier is interned and gets its
/// human-readable name, in the order of `entries`.
pub fn import_tooltips(db: &mut RecipeDatabase, entries: Vec<(String, String)>)
    requires
        old(db).wf(),
        with_tooltips(old(db)@, tooltip_views(entries@)).symbols.len() <= u32::MAX,
    ensures
        final(db).wf(),
        final(db)@ == with_tooltips(old(db)@, tooltip_views(entries@)),
{
    let ghost start = db@;
    let ghost wanted = tooltip_views(entries@);
    proof {
        assert(wanted.take(0) =~= Seq::empty());
    }
    for entry in iter: entries
        invariant
            iter.seq() == entries@,
            wanted == tooltip_views(entries@),
            start.symbols.no_duplicates(),
            with_tooltips(start, wanted).symbols.len() <= u32::MAX,
            db.wf(),
            db@ == with_tooltips(start, wanted.take(iter.index() as int)),
    {
        proof {
            let i = iter.index() as int;
            assert(wanted[i] == (entry.0@, entry.1@));
            lemma_tooltips_fit(start, wanted, i);
            law_intern_extends(db@.symbols, entry.0@);
        }
        let (mc_name, human_name) = entry;
        let mc_name = db.get_or_intern(mc_name.as_str());
        db.associate_name(mc_name, human_name);
    }
    proof {
        assert(wanted.take(wanted.len() as int) =~= wanted);
    }
}

/// Tells the files of an export directory apart by their names: two names
/// are special, every other file is a recipe document.
pub fn classify_file(file_name: &str) -> (kind: ExportFile)
    ensures
        kind == (if file_name@ == "tooltipMap.json"@ {
            ExportFile::Tooltips
        } else if file_name@ == "lookupMap.json"@ {
            ExportFile::Lookup
        } else {
            ExportFile::Recipes
        }),
{
    let name = file_name.to_owned();
    if name == "tooltipMap.json".to_owned() {
        ExportFile::Tooltips
    } else if name == "lookupMap.json".to_owned() {
        ExportFile::Lookup
    } else {
        ExportFile::Recipes
    }
}

} // verus!
