//! Facts about the model that the importer's proofs rest on.
use vstd::prelude::*;
use crate::interner::{law_intern_extends, SymbolId};
use crate::json::recipe::{Record, Slot};
use crate::model::{
    covariant_slots, direct_recipe, expansion, expansions, fits, is_covariant, is_trigger,
    registered, stack_trace, stacks_trace, staged, template_inputs, template_outputs, triggers,
    variant, variant_inputs, variant_outputs, variant_trace, variants_trace, with_tooltip,
    with_tooltips,
};
use crate::recipe_db::{register, register_all, Registration, Staging};
use crate::sql::ItemType;
use crate::types::{
    all_known, describe_all, named_component, NamedRecipe, RecipeComponent, RecipeView,
};

verus! {

/// Meeting one more identifier after a run is the run followed by it.
pub proof fn lemma_register_all_push(state: Staging, entries: Seq<Registration>, entry: Registration)
    ensures
        register_all(state, entries.push(entry)) == register(register_all(state, entries), entry),
{
    assert(entries.push(entry).drop_last() =~= entries);
}

/// Meeting two runs one after the other is meeting their concatenation.
pub proof fn lemma_register_all_concat(
    state: Staging,
    first: Seq<Registration>,
    second: Seq<Registration>,
)
    ensures
        register_all(state, first + second) == register_all(register_all(state, first), second),
    decreases second.len(),
{
    if second.len() == 0 {
        assert(first + second =~= first);
    } else {
        lemma_register_all_concat(state, first, second.drop_last());
        assert((first + second).drop_last() =~= first + second.drop_last());
    }
}

/// Meeting identifiers touches only the interner and the kinds; what is
/// interned stays where it is, and no string is interned twice.
pub proof fn lemma_register_all_grows(state: Staging, entries: Seq<Registration>)
    requires
        state.symbols.no_duplicates(),
    ensures
        register_all(state, entries).symbols.no_duplicates(),
        state.symbols.is_prefix_of(register_all(state, entries).symbols),
        register_all(state, entries).extends(state),
        register_all(state, entries).recipes == state.recipes,
        register_all(state, entries).names == state.names,
        register_all(state, entries).machines == state.machines,
    decreases entries.len(),
{
    if entries.len() > 0 {
        lemma_register_all_grows(state, entries.drop_last());
        let before = register_all(state, entries.drop_last());
        law_intern_extends(before.symbols, entries.last().name);
    }
}

/// The interner is never larger after a part of a run than after all of it.
pub proof fn lemma_register_all_prefix(state: Staging, entries: Seq<Registration>, k: int)
    requires
        state.symbols.no_duplicates(),
        0 <= k <= entries.len(),
    ensures
        register_all(state, entries.take(k)).symbols.no_duplicates(),
        register_all(state, entries.take(k)).symbols.is_prefix_of(
            register_all(state, entries).symbols,
        ),
{
    lemma_register_all_grows(state, entries.take(k));
    lemma_register_all_concat(state, entries.take(k), entries.skip(k));
    assert(entries.take(k) + entries.skip(k) =~= entries);
    lemma_register_all_grows(register_all(state, entries.take(k)), entries.skip(k));
}

/// A run that fits leaves room for each of its identifiers in turn.
pub proof fn lemma_fits_step(state: Staging, entries: Seq<Registration>, k: int)
    requires
        state.symbols.no_duplicates(),
        fits(state, entries),
        0 <= k < entries.len(),
    ensures
        register_all(state, entries.take(k + 1)) == register(
            register_all(state, entries.take(k)),
            entries[k],
        ),
        register_all(state, entries.take(k)).symbols.contains(entries[k].name) || register_all(
            state,
            entries.take(k),
        ).symbols.len() < u32::MAX,
        fits(state, entries.take(k + 1)),
{
    assert(entries.take(k + 1) =~= entries.take(k).push(entries[k]));
    lemma_register_all_push(state, entries.take(k), entries[k]);
    lemma_register_all_prefix(state, entries, k + 1);
}

/// Ingredients whose symbols are known read the same through any interner
/// that has grown since.
pub proof fn lemma_describe_all_stable(
    elements: Seq<RecipeComponent>,
    earlier: Staging,
    later: Staging,
)
    requires
        all_known(elements, earlier),
        later.extends(earlier),
    ensures
        all_known(elements, later),
        describe_all(elements, later.symbols) == describe_all(elements, earlier.symbols),
{
    assert forall|i: int| 0 <= i < elements.len() implies (#[trigger] elements[i]).known(later)
        && elements[i].describe(later.symbols) == elements[i].describe(earlier.symbols) by {
        assert(elements[i].known(earlier));
        assert(later.symbols[elements[i].symbol().index as int]
            == earlier.symbols[elements[i].symbol().index as int]);
        assert(earlier.kinds.dom().contains(elements[i].symbol().index));
    }
    assert(describe_all(elements, later.symbols) =~= describe_all(elements, earlier.symbols));
}

/// The identifiers of the first slots of a list are met before those of the
/// rest.
pub proof fn lemma_flat_map_prefix<A, B>(s: Seq<A>, f: spec_fn(A) -> Seq<B>, k: int)
    requires
        0 <= k <= s.len(),
    ensures
        s.take(k).flat_map(f).is_prefix_of(s.flat_map(f)),
    decreases s.len() - k,
{
    if k == s.len() {
        assert(s.take(k) =~= s);
    } else {
        lemma_flat_map_prefix(s, f, k + 1);
        s.lemma_flat_map_take_append(f, k);
        let short = s.take(k).flat_map(f);
        let long = s.take(k + 1).flat_map(f);
        let whole = s.flat_map(f);
        assert(long =~= whole.subrange(0, long.len() as int));
        assert(short =~= whole.subrange(0, short.len() as int));
    }
}

/// A run fits if a longer run does.
pub proof fn lemma_fits_prefix(state: Staging, whole: Seq<Registration>, part: Seq<Registration>)
    requires
        state.symbols.no_duplicates(),
        fits(state, whole),
        part.is_prefix_of(whole),
    ensures
        fits(state, part),
{
    assert(whole.take(part.len() as int) =~= part);
    lemma_register_all_prefix(state, whole, part.len() as int);
}

/// After the first part of a run that fits, the next part fits too.
pub proof fn lemma_fits_next(
    state: Staging,
    whole: Seq<Registration>,
    done: Seq<Registration>,
    next: Seq<Registration>,
)
    requires
        state.symbols.no_duplicates(),
        fits(state, whole),
        (done + next).is_prefix_of(whole),
    ensures
        register_all(state, done + next) == register_all(register_all(state, done), next),
        fits(register_all(state, done), next),
        register_all(state, done).symbols.no_duplicates(),
{
    lemma_fits_prefix(state, whole, done + next);
    lemma_register_all_concat(state, done, next);
    lemma_register_all_grows(state, done);
}

/// A recipe whose symbols are known reads the same through any interner that
/// has grown since.
pub proof fn lemma_recipe_stable(recipe: RecipeView, earlier: Staging, later: Staging)
    requires
        recipe.known(earlier),
        later.extends(earlier),
    ensures
        recipe.known(later),
        recipe.describe(later.symbols) == recipe.describe(earlier.symbols),
{
    assert forall|i: int| 0 <= i < recipe.inputs.len() implies all_known(
        #[trigger] recipe.inputs[i],
        later,
    ) && describe_all(recipe.inputs[i], later.symbols) == describe_all(
        recipe.inputs[i],
        earlier.symbols,
    ) by {
        lemma_describe_all_stable(recipe.inputs[i], earlier, later);
    }
    lemma_describe_all_stable(recipe.outputs, earlier, later);
    assert(recipe.describe(later.symbols).inputs =~= recipe.describe(earlier.symbols).inputs);
}

/// A recipe with one more input slot reads as before, with the new slot at
/// the end of its inputs.
pub proof fn lemma_push_input(
    before: RecipeView,
    after: RecipeView,
    slot: Seq<RecipeComponent>,
    state: Staging,
)
    requires
        before.known(state),
        all_known(slot, state),
        after == (RecipeView { inputs: before.inputs.push(slot), ..before }),
    ensures
        after.known(state),
        after.describe(state.symbols).inputs == before.describe(state.symbols).inputs.push(
            describe_all(slot, state.symbols),
        ),
        after.describe(state.symbols).outputs == before.describe(state.symbols).outputs,
{
    assert forall|i: int| 0 <= i < after.inputs.len() implies all_known(
        #[trigger] after.inputs[i],
        state,
    ) by {
        if i < before.inputs.len() {
            assert(after.inputs[i] == before.inputs[i]);
        }
    }
    assert(after.describe(state.symbols).inputs =~= before.describe(state.symbols).inputs.push(
        describe_all(slot, state.symbols),
    ));
}

/// A recipe with one more output reads as before, with the new ingredient at
/// the end of its outputs.
pub proof fn lemma_push_output(
    before: RecipeView,
    after: RecipeView,
    component: RecipeComponent,
    state: Staging,
)
    requires
        before.known(state),
        component.known(state),
        after == (RecipeView { outputs: before.outputs.push(component), ..before }),
    ensures
        after.known(state),
        after.describe(state.symbols).inputs == before.describe(state.symbols).inputs,
        after.describe(state.symbols).outputs == before.describe(state.symbols).outputs.push(
            component.describe(state.symbols),
        ),
{
    assert(after.describe(state.symbols).outputs =~= before.describe(state.symbols).outputs.push(
        component.describe(state.symbols),
    ));
}

/// What begins a sequence begins every sequence that continues it.
pub proof fn lemma_prefix_extend<A>(a: Seq<A>, b: Seq<A>, c: Seq<A>)
    requires
        a.is_prefix_of(b),
    ensures
        a.is_prefix_of(b + c),
{
    assert(a =~= (b + c).subrange(0, a.len() as int));
}

/// Prefixes stay prefixes behind a common beginning.
pub proof fn lemma_prefix_shift<A>(p: Seq<A>, x: Seq<A>, y: Seq<A>)
    requires
        x.is_prefix_of(y),
    ensures
        (p + x).is_prefix_of(p + y),
{
    assert(p + x =~= (p + y).subrange(0, (p + x).len() as int));
}

/// Taking stack `i` of one more slot meets one more identifier.
pub proof fn lemma_stacks_trace_step(slots: Seq<Slot>, i: int, a: int)
    requires
        0 <= a < slots.len(),
    ensures
        stacks_trace(slots.take(a + 1), i) == stacks_trace(slots.take(a), i) + stack_trace(
            slots[a],
            ItemType::Item,
            i,
        ),
        stacks_trace(slots.take(a + 1), i).is_prefix_of(stacks_trace(slots, i)),
{
    slots.lemma_flat_map_take_append(|s: Slot| stack_trace(s, ItemType::Item, i), a);
    lemma_flat_map_prefix(slots, |s: Slot| stack_trace(s, ItemType::Item, i), a + 1);
}

/// Taking stack `i` of one more slot adds one slot, or one output.
pub proof fn lemma_variant_step(slots: Seq<Slot>, i: int, a: int)
    requires
        0 <= a < slots.len(),
    ensures
        variant_inputs(slots.take(a + 1), i) == variant_inputs(slots.take(a), i).push(
            seq![named_component(ItemType::Item, slots[a].stacks[i])],
        ),
        variant_outputs(slots.take(a + 1), i) == variant_outputs(slots.take(a), i).push(
            named_component(ItemType::Item, slots[a].stacks[i]),
        ),
{
    assert(slots.take(a + 1) =~= slots.take(a).push(slots[a]));
    assert(variant_inputs(slots.take(a + 1), i) =~= variant_inputs(slots.take(a), i).push(
        seq![named_component(ItemType::Item, slots[a].stacks[i])],
    ));
    assert(variant_outputs(slots.take(a + 1), i) =~= variant_outputs(slots.take(a), i).push(
        named_component(ItemType::Item, slots[a].stacks[i]),
    ));
}

/// One more item slot is one more covariant slot of a direction exactly
/// when it is covariant and has that direction.
pub proof fn lemma_covariant_slots_step(items: Seq<Slot>, count: nat, inputs: bool, k: int)
    requires
        0 <= k < items.len(),
    ensures
        covariant_slots(items.take(k + 1), count, inputs) == if is_covariant(items[k], count)
            && items[k].is_input == inputs {
            covariant_slots(items.take(k), count, inputs).push(items[k])
        } else {
            covariant_slots(items.take(k), count, inputs)
        },
{
    assert(items.take(k + 1) =~= items.take(k).push(items[k]));
    items.take(k).lemma_filter_push(
        items[k],
        |s: Slot| is_covariant(s, count) && s.is_input == inputs,
    );
}

/// Every covariant slot of a direction is covariant and has that direction.
pub proof fn lemma_covariant_slots_hold(items: Seq<Slot>, count: nat, inputs: bool)
    ensures
        forall|a: int|
            0 <= a < covariant_slots(items, count, inputs).len() ==> is_covariant(
                #[trigger] covariant_slots(items, count, inputs)[a],
                count,
            ) && covariant_slots(items, count, inputs)[a].is_input == inputs,
{
    let pred = |s: Slot| is_covariant(s, count) && s.is_input == inputs;
    assert forall|a: int| 0 <= a < items.filter(pred).len() implies pred(
        #[trigger] items.filter(pred)[a],
    ) by {
        items.lemma_filter_pred(pred, a);
    }
}

/// The identifiers met by one more variant follow those of the variants
/// before it.
pub proof fn lemma_variants_trace_step(record: Record, count: nat, n: nat)
    ensures
        variants_trace(record, count, n + 1) == variants_trace(record, count, n) + variant_trace(
            record,
            count,
            n as int,
        ),
{
    let longer = Seq::new(n + 1, |i: int| variant_trace(record, count, i));
    let shorter = Seq::new(n, |i: int| variant_trace(record, count, i));
    assert(longer =~= shorter.push(variant_trace(record, count, n as int)));
    shorter.lemma_flatten_push(variant_trace(record, count, n as int));
}

/// Staged recipes stay staged while the interner grows.
pub proof fn lemma_staged_stable(
    before: Staging,
    earlier: Staging,
    later: Staging,
    machine: SymbolId,
    added: Seq<NamedRecipe>,
)
    requires
        staged(before, earlier, machine, added),
        later.recipes == earlier.recipes,
        later.extends(earlier),
    ensures
        staged(before, later, machine, added),
{
    assert forall|i: int| 0 <= i < added.len() implies {
        let recipe = #[trigger] later.recipes[before.recipes.len() + i];
        &&& recipe.machine == machine
        &&& recipe.known(later)
        &&& recipe.describe(later.symbols) == added[i]
    } by {
        let recipe = earlier.recipes[before.recipes.len() + i];
        lemma_recipe_stable(recipe, earlier, later);
    }
}

/// Staging one more recipe that reads as `next` stages `next` after what was
/// staged before.
pub proof fn lemma_staged_push(
    before: Staging,
    earlier: Staging,
    later: Staging,
    machine: SymbolId,
    added: Seq<NamedRecipe>,
    recipe: RecipeView,
    next: NamedRecipe,
)
    requires
        staged(before, earlier, machine, added),
        later.recipes == earlier.recipes.push(recipe),
        later.symbols == earlier.symbols,
        later.kinds == earlier.kinds,
        recipe.machine == machine,
        recipe.known(later),
        recipe.describe(later.symbols) == next,
    ensures
        staged(before, later, machine, added.push(next)),
{
    assert forall|i: int| 0 <= i < added.push(next).len() implies {
        let r = #[trigger] later.recipes[before.recipes.len() + i];
        &&& r.machine == machine
        &&& r.known(later)
        &&& r.describe(later.symbols) == added.push(next)[i]
    } by {
        if i < added.len() {
            assert(later.recipes[before.recipes.len() + i] == earlier.recipes[before.recipes.len()
                + i]);
        }
    }
}

/// The identifiers met by the first variants are met before those of the
/// rest.
pub proof fn lemma_variants_prefix(record: Record, count: nat, n: nat)
    requires
        n <= count,
    ensures
        variants_trace(record, count, n).is_prefix_of(variants_trace(record, count, count)),
    decreases count - n,
{
    if n < count {
        lemma_variants_prefix(record, count, n + 1);
        lemma_variants_trace_step(record, count, n);
        let short = variants_trace(record, count, n);
        let long = variants_trace(record, count, n + 1);
        let whole = variants_trace(record, count, count);
        assert(long =~= whole.subrange(0, long.len() as int));
        assert(short =~= whole.subrange(0, short.len() as int));
    }
}

/// Meeting identifiers does not look at the staged recipes: two staging
/// databases that differ in their recipes alone go through the same changes.
pub proof fn lemma_register_all_moves(plain: Staging, loaded: Staging, entries: Seq<Registration>)
    requires
        loaded == (Staging { recipes: loaded.recipes, ..plain }),
    ensures
        register_all(loaded, entries) == (Staging {
            recipes: loaded.recipes,
            ..register_all(plain, entries)
        }),
    decreases entries.len(),
{
    if entries.len() > 0 {
        lemma_register_all_moves(plain, loaded, entries.drop_last());
    }
}

/// Whether a run fits does not depend on the staged recipes.
pub proof fn lemma_fits_moves(plain: Staging, loaded: Staging, entries: Seq<Registration>)
    requires
        loaded == (Staging { recipes: loaded.recipes, ..plain }),
    ensures
        fits(loaded, entries) == fits(plain, entries),
{
    lemma_register_all_moves(plain, loaded, entries);
}

/// Being a prefix carries over.
pub proof fn lemma_prefix_trans<A>(a: Seq<A>, b: Seq<A>, c: Seq<A>)
    requires
        a.is_prefix_of(b),
        b.is_prefix_of(c),
    ensures
        a.is_prefix_of(c),
{
    assert(a =~= c.subrange(0, a.len() as int));
}

/// A run of identifiers leaves the staging database registered by that run.
pub proof fn lemma_registered_by_run(before: Staging, entries: Seq<Registration>)
    requires
        before.symbols.no_duplicates(),
    ensures
        registered(before, register_all(before, entries), entries),
        register_all(before, entries).recipes == before.recipes,
        register_all(before, entries).extends(before),
        register_all(before, entries).symbols.no_duplicates(),
{
    lemma_register_all_grows(before, entries);
}

/// What is registered by one run and then by another is registered by both
/// in a row.
pub proof fn lemma_registered_then(
    before: Staging,
    between: Staging,
    after: Staging,
    done: Seq<Registration>,
    next: Seq<Registration>,
)
    requires
        registered(before, between, done),
        registered(between, after, next),
    ensures
        registered(before, after, done + next),
{
    lemma_register_all_moves(register_all(before, done), between, next);
    lemma_register_all_concat(before, done, next);
}

/// What is registered keeps the machines and the names, and the interner
/// only grows.
pub proof fn lemma_registered_grows(before: Staging, after: Staging, entries: Seq<Registration>)
    requires
        before.symbols.no_duplicates(),
        registered(before, after, entries),
    ensures
        after.symbols.no_duplicates(),
        before.symbols.is_prefix_of(after.symbols),
        after.extends(before),
        after.machines == before.machines,
        after.names == before.names,
{
    lemma_register_all_grows(before, entries);
}

/// After a part of a run that fits, the next part fits too.
pub proof fn lemma_fits_after(
    before: Staging,
    current: Staging,
    whole: Seq<Registration>,
    done: Seq<Registration>,
    next: Seq<Registration>,
)
    requires
        before.symbols.no_duplicates(),
        fits(before, whole),
        registered(before, current, done),
        (done + next).is_prefix_of(whole),
    ensures
        fits(current, next),
        current.symbols.no_duplicates(),
{
    lemma_fits_next(before, whole, done, next);
    lemma_fits_moves(register_all(before, done), current, next);
}

/// Recipes staged in two steps are staged one after the other.
pub proof fn lemma_staged_then(
    before: Staging,
    between: Staging,
    after: Staging,
    machine: SymbolId,
    first: Seq<NamedRecipe>,
    second: Seq<NamedRecipe>,
)
    requires
        staged(before, between, machine, first),
        staged(between, after, machine, second),
        after.extends(between),
    ensures
        staged(before, after, machine, first + second),
{
    assert forall|i: int| 0 <= i < (first + second).len() implies {
        let recipe = #[trigger] after.recipes[before.recipes.len() + i];
        &&& recipe.machine == machine
        &&& recipe.known(after)
        &&& recipe.describe(after.symbols) == (first + second)[i]
    } by {
        if i < first.len() {
            let recipe = between.recipes[before.recipes.len() + i];
            assert(after.recipes[before.recipes.len() + i] == recipe);
            lemma_recipe_stable(recipe, between, after);
        } else {
            assert(after.recipes[before.recipes.len() + i] == after.recipes[between.recipes.len()
                + (i - first.len())]);
        }
    }
}

/// One more item slot sets off one more expansion exactly when it is a
/// trigger.
pub proof fn lemma_expansions_step(record: Record, items: Seq<Slot>, k: int)
    requires
        0 <= k < items.len(),
    ensures
        triggers(items.take(k + 1)) == if is_trigger(items[k]) {
            triggers(items.take(k)).push(items[k])
        } else {
            triggers(items.take(k))
        },
        expansions(record, items.take(k + 1)) == if is_trigger(items[k]) {
            expansions(record, items.take(k)) + expansion(record, items[k].stacks.len())
        } else {
            expansions(record, items.take(k))
        },
{
    assert(items.take(k + 1) =~= items.take(k).push(items[k]));
    items.take(k).lemma_filter_push(items[k], |s: Slot| is_trigger(s));
    if is_trigger(items[k]) {
        triggers(items.take(k)).lemma_flat_map_push(
            |s: Slot| expansion(record, s.stacks.len()),
            items[k],
        );
    }
}

/// No slot is covariant for the count zero, so the direct recipe is the
/// template for that count.
pub proof fn lemma_direct_recipe(record: Record)
    ensures
        direct_recipe(record).inputs == template_inputs(record, 0),
        direct_recipe(record).outputs == template_outputs(record, 0),
{
    let ins = covariant_slots(record.items, 0, true);
    let outs = covariant_slots(record.items, 0, false);
    lemma_covariant_slots_hold(record.items, 0, true);
    lemma_covariant_slots_hold(record.items, 0, false);
    if ins.len() > 0 {
        assert(is_covariant(ins[0], 0));
    }
    if outs.len() > 0 {
        assert(is_covariant(outs[0], 0));
    }
    assert(variant_inputs(ins, 0) =~= Seq::empty());
    assert(variant_outputs(outs, 0) =~= Seq::empty());
    assert(template_inputs(record, 0) + variant_inputs(ins, 0) =~= template_inputs(record, 0));
    assert(template_outputs(record, 0) + variant_outputs(outs, 0) =~= template_outputs(record, 0));
}

/// Tooltips only ever add to the interner, and never store a string twice.
pub proof fn lemma_tooltips_keep(state: Staging, entries: Seq<(Seq<char>, Seq<char>)>)
    requires
        state.symbols.no_duplicates(),
    ensures
        with_tooltips(state, entries).symbols.no_duplicates(),
        state.symbols.is_prefix_of(with_tooltips(state, entries).symbols),
        with_tooltips(state, entries).recipes == state.recipes,
        with_tooltips(state, entries).machines == state.machines,
    decreases entries.len(),
{
    if entries.len() > 0 {
        lemma_tooltips_keep(state, entries.drop_last());
        law_intern_extends(with_tooltips(state, entries.drop_last()).symbols, entries.last().0);
    }
}

/// Taking two runs of tooltips one after the other is taking their
/// concatenation.
pub proof fn lemma_tooltips_concat(
    state: Staging,
    first: Seq<(Seq<char>, Seq<char>)>,
    second: Seq<(Seq<char>, Seq<char>)>,
)
    ensures
        with_tooltips(state, first + second) == with_tooltips(with_tooltips(state, first), second),
    decreases second.len(),
{
    if second.len() == 0 {
        assert(first + second =~= first);
    } else {
        lemma_tooltips_concat(state, first, second.drop_last());
        assert((first + second).drop_last() =~= first + second.drop_last());
    }
}

/// A run of tooltips that fits leaves room for each of its entries in turn.
pub proof fn lemma_tooltips_fit(state: Staging, entries: Seq<(Seq<char>, Seq<char>)>, k: int)
    requires
        state.symbols.no_duplicates(),
        0 <= k < entries.len(),
        with_tooltips(state, entries).symbols.len() <= u32::MAX,
    ensures
        with_tooltips(state, entries.take(k + 1)) == with_tooltip(
            with_tooltips(state, entries.take(k)),
            entries[k],
        ),
        with_tooltips(state, entries.take(k)).symbols.no_duplicates(),
        with_tooltips(state, entries.take(k + 1)).symbols.len() <= u32::MAX,
{
    assert(entries.take(k + 1).drop_last() =~= entries.take(k));
    lemma_tooltips_keep(state, entries.take(k));
    lemma_tooltips_keep(state, entries.take(k + 1));
    lemma_tooltips_concat(state, entries.take(k + 1), entries.skip(k + 1));
    assert(entries.take(k + 1) + entries.skip(k + 1) =~= entries);
    lemma_tooltips_keep(with_tooltips(state, entries.take(k + 1)), entries.skip(k + 1));
}

/// In a sequence without duplicates two positions that hold the same value
/// are one position.
pub proof fn lemma_index_unique<A>(s: Seq<A>, i: int, j: int)
    requires
        s.no_duplicates(),
        0 <= i < s.len(),
        0 <= j < s.len(),
        s[i] == s[j],
    ensures
        i == j,
{
}

/// The identifier of one stack, as a run of its own.
pub proof fn lemma_single_registration(state: Staging, slot: Slot, kind: ItemType, i: int)
    ensures
        register_all(state, stack_trace(slot, kind, i)) == register(
            state,
            Registration { name: slot.stacks[i].name, kind },
        ),
{
    let entry = Registration { name: slot.stacks[i].name, kind };
    assert(stack_trace(slot, kind, i) =~= Seq::<Registration>::empty().push(entry));
    lemma_register_all_push(state, Seq::empty(), entry);
}

} // verus!
