//! What holds of normalisation in general.
use vstd::prelude::*;
use crate::interner::SymbolId;
use crate::json::present;
use crate::json::recipe::{Record, Slot};
use crate::lemmas::lemma_index_unique;
use crate::model::{
    covariant_slots, direct_recipe, expandable, expansion, fluid_input, is_filled, plain_input,
    record_recipes, staged, supported, template_inputs, template_outputs, triggers, variant,
    variant_inputs,
};
use crate::recipe_db::Staging;
use crate::sql::ItemType;
use crate::types::{named_component, NamedRecipe, RecipeComponent, RecipeView};

verus! {

/// A null placeholder leaves no trace in a list, and an entry that is
/// present stays where it is: the list `[a, null, b]` reads as `[a, b]`.
pub proof fn law_nulls_leave_no_trace<T>(list: Seq<Option<T>>, value: T)
    ensures
        present(Seq::<Option<T>>::empty()) == Seq::<T>::empty(),
        present(list.push(None)) == present(list),
        present(list.push(Some(value))) == present(list).push(value),
        present(list).len() <= list.len(),
    decreases list.len(),
{
    let keep = |entry: Option<T>| entry;
    assert(list.push(None).drop_last() =~= list);
    assert(list.push(Some(value)).drop_last() =~= list);
    assert(list.push(Some(value)).filter_map(keep) =~= list.filter_map(keep).push(value));
    if list.len() > 0 {
        law_nulls_leave_no_trace(list.drop_last(), value);
    }
}

/// An expansion stages exactly as many recipes as the covariant count says.
pub proof fn law_expansion_size(record: Record, count: nat)
    ensures
        expansion(record, count).len() == count,
        forall|i: int| 0 <= i < count ==> #[trigger] expansion(record, count)[i] == variant(
            record,
            count,
            i,
        ),
{
}

/// Every variant of an expansion begins with the same template; what
/// follows is, for each covariant slot in turn, the stack at the variant's
/// own position: as a slot of one alternative among the inputs, as one
/// ingredient among the outputs.
pub proof fn law_variant_is_template_and_own_stacks(record: Record, count: nat, i: int)
    ensures
        template_inputs(record, count).is_prefix_of(variant(record, count, i).inputs),
        template_outputs(record, count).is_prefix_of(variant(record, count, i).outputs),
        variant(record, count, i).inputs.len() == template_inputs(record, count).len()
            + covariant_slots(record.items, count, true).len(),
        variant(record, count, i).outputs.len() == template_outputs(record, count).len()
            + covariant_slots(record.items, count, false).len(),
        forall|k: int|
            0 <= k < covariant_slots(record.items, count, true).len() ==> #[trigger] variant(
                record,
                count,
                i,
            ).inputs[template_inputs(record, count).len() + k] == seq![
                named_component(
                    ItemType::Item,
                    covariant_slots(record.items, count, true)[k].stacks[i],
                ),
            ],
        forall|k: int|
            0 <= k < covariant_slots(record.items, count, false).len() ==> #[trigger] variant(
                record,
                count,
                i,
            ).outputs[template_outputs(record, count).len() + k] == named_component(
                ItemType::Item,
                covariant_slots(record.items, count, false)[k].stacks[i],
            ),
{
    let ins = template_inputs(record, count);
    let outs = template_outputs(record, count);
    assert(ins =~= variant(record, count, i).inputs.subrange(0, ins.len() as int));
    assert(outs =~= variant(record, count, i).outputs.subrange(0, outs.len() as int));
}

/// A record without a trigger stands for exactly one recipe, the direct
/// one.
pub proof fn law_plain_record_is_one_recipe(record: Record)
    requires
        triggers(record.items).len() == 0,
    ensures
        record_recipes(record) == seq![direct_recipe(record)],
        record_recipes(record).len() == 1,
{
}

/// A record with one trigger stands for the variants of that trigger's
/// expansion, as many as the trigger has stacks, and for nothing else: the
/// record itself is not staged beside them.
pub proof fn law_trigger_replaces_the_record(record: Record, trigger: Slot)
    requires
        triggers(record.items) == seq![trigger],
    ensures
        record_recipes(record) == expansion(record, trigger.stacks.len()),
        record_recipes(record).len() == trigger.stacks.len(),
{
    let each = |s: Slot| expansion(record, s.stacks.len());
    assert(triggers(record.items).len() == 1);
    assert(seq![trigger].map_values(each) =~= seq![expansion(record, trigger.stacks.len())]);
    seq![expansion(record, trigger.stacks.len())].lemma_flatten_one_element();
    assert(seq![expansion(record, trigger.stacks.len())].first() == expansion(
        record,
        trigger.stacks.len(),
    ));
}

/// A fluid output slot with more than one fluid is refused, whatever else
/// the record holds: it is never cut down to its first fluid.
pub proof fn law_fluid_covariance_is_refused(record: Record, k: int, count: nat)
    requires
        0 <= k < record.fluids.len(),
        !record.fluids[k].is_input,
        record.fluids[k].stacks.len() > 1,
    ensures
        !supported(record),
        !expandable(record, count),
{
    assert(is_filled(record.fluids[k]));
}

/// An item output slot that is neither covariant nor single is refused: a
/// record has one axis of covariance.
pub proof fn law_second_axis_is_refused(record: Record, k: int, count: nat)
    requires
        0 <= k < record.items.len(),
        !record.items[k].is_input,
        record.items[k].stacks.len() > 1,
        record.items[k].stacks.len() != count,
    ensures
        !expandable(record, count),
{
    assert(is_filled(record.items[k]));
}

/// Two ingredients that read alike through an interner without duplicates
/// are the same ingredient.
pub proof fn lemma_described_alike(a: RecipeComponent, b: RecipeComponent, state: Staging)
    requires
        state.symbols.no_duplicates(),
        a.known(state),
        b.known(state),
        a.describe(state.symbols) == b.describe(state.symbols),
    ensures
        a == b,
{
    lemma_index_unique(state.symbols, a.symbol().index as int, b.symbol().index as int);
}

/// What is staged is told up to the last symbol: two staging databases with
/// the same interner that stage the same named recipes after the same
/// beginning hold the same recipes.
pub proof fn law_staged_is_exact(
    before: Staging,
    one: Staging,
    other: Staging,
    machine: SymbolId,
    added: Seq<NamedRecipe>,
)
    requires
        one.symbols.no_duplicates(),
        one.symbols == other.symbols,
        one.kinds == other.kinds,
        staged(before, one, machine, added),
        staged(before, other, machine, added),
    ensures
        one.recipes == other.recipes,
{
    let symbols = one.symbols;
    assert forall|r: int| 0 <= r < one.recipes.len() implies one.recipes[r] == other.recipes[r] by {
        if r >= before.recipes.len() {
            let i = r - before.recipes.len();
            let x = one.recipes[before.recipes.len() + i];
            let y = other.recipes[before.recipes.len() + i];
            assert(x.describe(symbols) == added[i]);
            assert(y.describe(symbols) == added[i]);
            assert(y.known(one)) by {
                lemma_known_alike(y, other, one);
            }
            lemma_recipes_alike(x, y, one);
        }
    }
    assert(one.recipes =~= other.recipes);
}

/// Two recipes of one machine that read alike through an interner without
/// duplicates are the same recipe.
pub proof fn lemma_recipes_alike(x: RecipeView, y: RecipeView, state: Staging)
    requires
        state.symbols.no_duplicates(),
        x.machine == y.machine,
        x.known(state),
        y.known(state),
        x.describe(state.symbols) == y.describe(state.symbols),
    ensures
        x == y,
{
    let symbols = state.symbols;
    assert(x.inputs.len() == y.inputs.len()) by {
        assert(x.describe(symbols).inputs.len() == x.inputs.len());
        assert(y.describe(symbols).inputs.len() == y.inputs.len());
    }
    assert forall|s: int| 0 <= s < x.inputs.len() implies x.inputs[s] == y.inputs[s] by {
        assert(x.describe(symbols).inputs[s] == y.describe(symbols).inputs[s]);
        lemma_elements_alike(x.inputs[s], y.inputs[s], state);
    }
    assert(x.inputs =~= y.inputs);
    lemma_elements_alike(x.outputs, y.outputs, state);
}

/// What is known to a staging database is known to every other with the
/// same interner and the same kinds.
pub proof fn lemma_known_alike(recipe: RecipeView, one: Staging, other: Staging)
    requires
        recipe.known(one),
        one.symbols == other.symbols,
        one.kinds == other.kinds,
    ensures
        recipe.known(other),
{
    assert forall|i: int| 0 <= i < recipe.inputs.len() implies crate::types::all_known(
        #[trigger] recipe.inputs[i],
        other,
    ) by {
        assert(crate::types::all_known(recipe.inputs[i], one));
    }
}

/// Two lists of ingredients that read alike through an interner without
/// duplicates are the same list.
pub proof fn lemma_elements_alike(
    a: Seq<RecipeComponent>,
    b: Seq<RecipeComponent>,
    state: Staging,
)
    requires
        state.symbols.no_duplicates(),
        crate::types::all_known(a, state),
        crate::types::all_known(b, state),
        crate::types::describe_all(a, state.symbols) == crate::types::describe_all(
            b,
            state.symbols,
        ),
    ensures
        a == b,
{
    let symbols = state.symbols;
    assert(a.len() == b.len()) by {
        assert(crate::types::describe_all(a, symbols).len() == a.len());
        assert(crate::types::describe_all(b, symbols).len() == b.len());
    }
    assert forall|i: int| 0 <= i < a.len() implies a[i] == b[i] by {
        assert(crate::types::describe_all(a, symbols)[i] == a[i].describe(symbols));
        assert(crate::types::describe_all(b, symbols)[i] == b[i].describe(symbols));
        lemma_described_alike(a[i], b[i], state);
    }
    assert(a =~= b);
}

/// No input slot of a staged recipe is empty: a slot without stacks is no
/// input at all, and every other slot keeps each of its alternatives.
pub proof fn law_slots_are_never_empty(record: Record, count: nat, i: int, k: int)
    requires
        0 <= k < variant(record, count, i).inputs.len(),
    ensures
        variant(record, count, i).inputs[k].len() > 0,
{
    let plain = record.items.filter_map(|s: Slot| plain_input(s, count));
    let fluid = record.fluids.filter_map(|s: Slot| fluid_input(s));
    let own = variant_inputs(covariant_slots(record.items, count, true), i);
    let slot = variant(record, count, i).inputs[k];
    if k < plain.len() {
        assert(plain[k] == slot);
        assert(plain.contains(slot));
        record.items.lemma_filter_map_contains(|s: Slot| plain_input(s, count), slot);
        let source = choose|t: Slot| #[trigger]
            record.items.contains(t) && plain_input(t, count) == Some(slot);
        assert(slot.len() == source.stacks.len());
    } else if k < plain.len() + fluid.len() {
        assert(fluid[k - plain.len()] == slot);
        assert(fluid.contains(slot));
        record.fluids.lemma_filter_map_contains(|s: Slot| fluid_input(s), slot);
        let source = choose|t: Slot| #[trigger]
            record.fluids.contains(t) && fluid_input(t) == Some(slot);
        assert(slot.len() == source.stacks.len());
    } else {
        assert(own[k - plain.len() - fluid.len()] == slot);
    }
}

} // verus!
