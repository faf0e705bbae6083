//! How many identifiers a document will bring, counted before anything is
//! interned, so that an import can be refused as a whole where the interner
//! might run out of symbols.
use vstd::prelude::*;
use crate::importer::{import_recipes, import_tooltips, is_supported_document};
use crate::interner::law_intern_extends;
use crate::json::recipe;
use crate::json::recipe::{Record, Slot};
use crate::lemmas::{lemma_covariant_slots_step, lemma_variants_trace_step};
use crate::model::{
    covariant_slots, document_recipes, document_supported, document_trace, expansion_trace, fits,
    fluid_trace, is_covariant, item_trace, machine_symbol, plain_trace, record_trace, registered,
    stack_trace, stacks_trace, staged, template_trace, tooltip_views, variant_trace, variants_trace,
    with_machine, with_tooltips,
};
use crate::recipe_db::{register_all, RecipeDatabase, Registration, Staging};
use crate::sql::ItemType;

verus! {

/// Counts stop here: one more than the interner has symbols.
pub const LIMIT: u64 = 4294967296;

/// A count as it is kept: exact below the limit, the limit from there on.
pub open spec fn capped(n: int) -> int {
    if n < LIMIT {
        n
    } else {
        LIMIT as int
    }
}

/// Adds two kept counts.
fn add_capped(a: u64, b: u64, Ghost(x): Ghost<int>, Ghost(y): Ghost<int>) -> (sum: u64)
    requires
        0 <= x,
        0 <= y,
        a == capped(x),
        b == capped(y),
    ensures
        sum == capped(x + y),
{
    let sum: u64 = a + b;
    if sum < LIMIT {
        sum
    } else {
        LIMIT
    }
}

/// Multiplies two kept counts.
fn mul_capped(a: u64, b: u64, Ghost(x): Ghost<int>, Ghost(y): Ghost<int>) -> (product: u64)
    requires
        0 <= x,
        0 <= y,
        a == capped(x),
        b == capped(y),
    ensures
        product == capped(x * y),
{
    if a == 0 || b == 0 {
        assert(x * y == 0) by (nonlinear_arith)
            requires
                x == 0 || y == 0,
        ;
        0
    } else if a == LIMIT || b == LIMIT {
        assert(x * y >= LIMIT) by (nonlinear_arith)
            requires
                x >= 1,
                y >= 1,
                x >= LIMIT || y >= LIMIT,
        ;
        LIMIT
    } else {
        assert(0 < a * b <= 18446744065119617025) by (nonlinear_arith)
            requires
                0 < a < 4294967296,
                0 < b < 4294967296,
        ;
        let product: u64 = a * b;
        if product < LIMIT {
            product
        } else {
            LIMIT
        }
    }
}

/// A length as a kept count.
fn length(n: usize) -> (kept: u64)
    ensures
        kept == capped(n as int),
{
    let wide: u64 = n as u64;
    if wide < LIMIT {
        wide
    } else {
        LIMIT
    }
}

/// One more slot adds the identifiers that are met at it.
pub proof fn lemma_flat_map_len_step<A, B>(s: Seq<A>, f: spec_fn(A) -> Seq<B>, k: int)
    requires
        0 <= k < s.len(),
    ensures
        s.take(k + 1).flat_map(f).len() == s.take(k).flat_map(f).len() + f(s[k]).len(),
{
    s.lemma_flat_map_take_append(f, k);
}

/// Taking stack `i` of each slot meets one identifier for each slot.
pub proof fn lemma_stacks_trace_len(slots: Seq<Slot>, i: int)
    ensures
        stacks_trace(slots, i).len() == slots.len(),
    decreases slots.len(),
{
    if slots.len() == 0 {
        assert(slots.map_values(|s: Slot| stack_trace(s, ItemType::Item, i)) =~= Seq::empty());
    } else {
        lemma_stacks_trace_len(slots.drop_last(), i);
        assert(slots.drop_last().push(slots.last()) =~= slots);
        slots.drop_last().lemma_flat_map_push(
            |s: Slot| stack_trace(s, ItemType::Item, i),
            slots.last(),
        );
    }
}

/// The number of covariant slots of a record for a count.
pub open spec fn covariant_total(record: Record, count: nat) -> int {
    (covariant_slots(record.items, count, true).len() + covariant_slots(
        record.items,
        count,
        false,
    ).len()) as int
}

/// Each variant meets one identifier for each covariant slot.
pub proof fn lemma_variants_trace_len(record: Record, count: nat, n: nat)
    ensures
        variants_trace(record, count, n).len() == n * covariant_total(record, count),
    decreases n,
{
    let each = covariant_total(record, count);
    if n == 0 {
        assert(Seq::new(0, |i: int| variant_trace(record, count, i)) =~= Seq::<
            Seq<Registration>,
        >::empty());
        assert(0 * each == 0) by (nonlinear_arith);
    } else {
        lemma_variants_trace_len(record, count, (n - 1) as nat);
        lemma_variants_trace_step(record, count, (n - 1) as nat);
        lemma_stacks_trace_len(covariant_slots(record.items, count, true), n - 1);
        lemma_stacks_trace_len(covariant_slots(record.items, count, false), n - 1);
        assert(n * each == (n - 1) * each + each) by (nonlinear_arith);
    }
}

/// The interner grows by no more than the identifiers that are met.
pub proof fn lemma_register_all_bound(state: Staging, entries: Seq<Registration>)
    ensures
        register_all(state, entries).symbols.len() <= state.symbols.len() + entries.len(),
    decreases entries.len(),
{
    if entries.len() > 0 {
        lemma_register_all_bound(state, entries.drop_last());
    }
}

/// The number of identifiers met at the fluid slots of a record.
pub fn fluids_trace_len(jrecipe: &recipe::Recipe) -> (met: u64)
    ensures
        met == capped(jrecipe@.fluids.flat_map(|s: Slot| fluid_trace(s)).len() as int),
{
    let ghost fluids = jrecipe@.fluids;
    let mut met: u64 = 0;
    proof {
        assert(fluids.take(0).flat_map(|s: Slot| fluid_trace(s)) =~= Seq::empty());
    }
    let mut j: usize = 0;
    while j < jrecipe.ingredient_fluids.len()
        invariant
            j <= jrecipe.ingredient_fluids.len(),
            fluids == jrecipe@.fluids,
            fluids.len() == jrecipe.ingredient_fluids.len(),
            met == capped(fluids.take(j as int).flat_map(|s: Slot| fluid_trace(s)).len() as int),
        decreases jrecipe.ingredient_fluids.len() - j,
    {
        let fluid_slot = &jrecipe.ingredient_fluids[j];
        let ghost done = fluids.take(j as int).flat_map(|s: Slot| fluid_trace(s)).len() as int;
        proof {
            assert(fluids[j as int] == fluid_slot@);
            lemma_flat_map_len_step(fluids, |s: Slot| fluid_trace(s), j as int);
        }
        let here: u64 = if fluid_slot.fluids.len() == 0 {
            0
        } else if fluid_slot.is_input {
            length(fluid_slot.fluids.len())
        } else {
            1
        };
        met = add_capped(met, here, Ghost(done), Ghost(fluid_trace(fluid_slot@).len() as int));
        j += 1;
    }
    proof {
        assert(fluids.take(j as int) =~= fluids);
    }
    met
}

/// The number of identifiers met while the template of an expansion is
/// built.
pub fn template_trace_len(jrecipe: &recipe::Recipe, covariant_count: usize) -> (met: u64)
    ensures
        met == capped(template_trace(jrecipe@, covariant_count as nat).len() as int),
{
    let ghost record = jrecipe@;
    let ghost count = covariant_count as nat;
    let mut met: u64 = 0;
    proof {
        assert(record.items.take(0).flat_map(|s: Slot| plain_trace(s, count)) =~= Seq::empty());
    }
    let mut k: usize = 0;
    while k < jrecipe.ingredient_items.len()
        invariant
            k <= jrecipe.ingredient_items.len(),
            record == jrecipe@,
            count == covariant_count,
            record.items.len() == jrecipe.ingredient_items.len(),
            met == capped(
                record.items.take(k as int).flat_map(|s: Slot| plain_trace(s, count)).len() as int,
            ),
        decreases jrecipe.ingredient_items.len() - k,
    {
        let item_slot = &jrecipe.ingredient_items[k];
        let ghost done = record.items.take(k as int).flat_map(
            |s: Slot| plain_trace(s, count),
        ).len() as int;
        proof {
            assert(record.items[k as int] == item_slot@);
            lemma_flat_map_len_step(record.items, |s: Slot| plain_trace(s, count), k as int);
        }
        let held: usize = item_slot.stacks.len();
        let here: u64 = if held == 0 || held == covariant_count {
            0
        } else if item_slot.is_input {
            length(held)
        } else {
            1
        };
        met = add_capped(met, here, Ghost(done), Ghost(plain_trace(item_slot@, count).len() as int));
        k += 1;
    }
    proof {
        assert(record.items.take(k as int) =~= record.items);
    }
    let fluids: u64 = fluids_trace_len(jrecipe);
    add_capped(
        met,
        fluids,
        Ghost(record.items.flat_map(|s: Slot| plain_trace(s, count)).len() as int),
        Ghost(record.fluids.flat_map(|s: Slot| fluid_trace(s)).len() as int),
    )
}

/// The number of covariant slots of a record for a count.
pub fn covariant_slot_count(jrecipe: &recipe::Recipe, covariant_count: usize) -> (slots: u64)
    ensures
        slots == capped(covariant_total(jrecipe@, covariant_count as nat)),
{
    let ghost record = jrecipe@;
    let ghost count = covariant_count as nat;
    let mut slots: u64 = 0;
    proof {
        assert(record.items.take(0) =~= Seq::<Slot>::empty());
        assert(covariant_slots(Seq::<Slot>::empty(), count, true).len() == 0) by {
            Seq::<Slot>::empty().lemma_filter_len(|s: Slot| is_covariant(s, count) && s.is_input == true);
        }
        assert(covariant_slots(Seq::<Slot>::empty(), count, false).len() == 0) by {
            Seq::<Slot>::empty().lemma_filter_len(|s: Slot| is_covariant(s, count) && s.is_input == false);
        }
    }
    let mut k: usize = 0;
    while k < jrecipe.ingredient_items.len()
        invariant
            k <= jrecipe.ingredient_items.len(),
            record == jrecipe@,
            count == covariant_count,
            record.items.len() == jrecipe.ingredient_items.len(),
            slots == capped(
                (covariant_slots(record.items.take(k as int), count, true).len()
                    + covariant_slots(record.items.take(k as int), count, false).len()) as int,
            ),
        decreases jrecipe.ingredient_items.len() - k,
    {
        let item_slot = &jrecipe.ingredient_items[k];
        let ghost done = covariant_slots(record.items.take(k as int), count, true).len()
            + covariant_slots(record.items.take(k as int), count, false).len();
        proof {
            assert(record.items[k as int] == item_slot@);
            lemma_covariant_slots_step(record.items, count, true, k as int);
            lemma_covariant_slots_step(record.items, count, false, k as int);
        }
        let held: usize = item_slot.stacks.len();
        let here: u64 = if held != 0 && held == covariant_count {
            1
        } else {
            0
        };
        slots = add_capped(slots, here, Ghost(done as int), Ghost(here as int));
        k += 1;
    }
    proof {
        assert(record.items.take(k as int) =~= record.items);
    }
    slots
}

/// The number of identifiers met by an expansion.
pub fn expansion_trace_len(jrecipe: &recipe::Recipe, covariant_count: usize) -> (met: u64)
    ensures
        met == capped(expansion_trace(jrecipe@, covariant_count as nat).len() as int),
{
    let template: u64 = template_trace_len(jrecipe, covariant_count);
    let slots: u64 = covariant_slot_count(jrecipe, covariant_count);
    let ghost record = jrecipe@;
    let ghost count = covariant_count as nat;
    proof {
        lemma_variants_trace_len(record, count, count);
        assert(covariant_total(record, count) >= 0);
    }
    let variants: u64 = mul_capped(
        length(covariant_count),
        slots,
        Ghost(count as int),
        Ghost(covariant_total(record, count)),
    );
    add_capped(
        template,
        variants,
        Ghost(template_trace(record, count).len() as int),
        Ghost(variants_trace(record, count, count).len() as int),
    )
}

/// The number of identifiers met in a record.
pub fn record_trace_len(jrecipe: &recipe::Recipe) -> (met: u64)
    ensures
        met == capped(record_trace(jrecipe@).len() as int),
{
    let ghost record = jrecipe@;
    let mut met: u64 = 0;
    proof {
        assert(record.items.take(0).flat_map(|s: Slot| item_trace(record, s)) =~= Seq::empty());
    }
    let mut k: usize = 0;
    while k < jrecipe.ingredient_items.len()
        invariant
            k <= jrecipe.ingredient_items.len(),
            record == jrecipe@,
            record.items.len() == jrecipe.ingredient_items.len(),
            met == capped(
                record.items.take(k as int).flat_map(|s: Slot| item_trace(record, s)).len() as int,
            ),
        decreases jrecipe.ingredient_items.len() - k,
    {
        let item_slot = &jrecipe.ingredient_items[k];
        let ghost done = record.items.take(k as int).flat_map(
            |s: Slot| item_trace(record, s),
        ).len() as int;
        proof {
            assert(record.items[k as int] == item_slot@);
            lemma_flat_map_len_step(record.items, |s: Slot| item_trace(record, s), k as int);
        }
        let held: usize = item_slot.stacks.len();
        let here: u64 = if held == 0 {
            0
        } else if item_slot.is_input {
            length(held)
        } else if held != 1 {
            let grown: u64 = expansion_trace_len(jrecipe, held);
            let both: u64 = add_capped(
                length(held),
                grown,
                Ghost(held as int),
                Ghost(expansion_trace(record, held as nat).len() as int),
            );
            add_capped(
                both,
                1,
                Ghost(held as int + expansion_trace(record, held as nat).len() as int),
                Ghost(1),
            )
        } else {
            2
        };
        met = add_capped(met, here, Ghost(done), Ghost(item_trace(record, item_slot@).len() as int));
        k += 1;
    }
    proof {
        assert(record.items.take(k as int) =~= record.items);
    }
    let fluids: u64 = fluids_trace_len(jrecipe);
    add_capped(
        met,
        fluids,
        Ghost(record.items.flat_map(|s: Slot| item_trace(record, s)).len() as int),
        Ghost(record.fluids.flat_map(|s: Slot| fluid_trace(s)).len() as int),
    )
}

/// The number of identifiers met in the records of a document.
pub fn document_trace_len(instance: &recipe::CraftingInstance) -> (met: u64)
    ensures
        met == capped(document_trace(instance@).len() as int),
{
    let ghost document = instance@;
    let mut met: u64 = 0;
    proof {
        assert(document.records.take(0).flat_map(|r: Record| record_trace(r)) =~= Seq::empty());
    }
    let mut r: usize = 0;
    while r < instance.recipes.len()
        invariant
            r <= instance.recipes.len(),
            document == instance@,
            document.records.len() == instance.recipes.len(),
            met == capped(
                document.records.take(r as int).flat_map(|r: Record| record_trace(r)).len() as int,
            ),
        decreases instance.recipes.len() - r,
    {
        let ghost done = document.records.take(r as int).flat_map(
            |r: Record| record_trace(r),
        ).len() as int;
        proof {
            assert(document.records[r as int] == instance.recipes[r as int]@);
            lemma_flat_map_len_step(document.records, |r: Record| record_trace(r), r as int);
        }
        let here: u64 = record_trace_len(&instance.recipes[r]);
        met = add_capped(
            met,
            here,
            Ghost(done),
            Ghost(record_trace(instance.recipes[r as int]@).len() as int),
        );
        r += 1;
    }
    proof {
        assert(document.records.take(r as int) =~= document.records);
    }
    met
}

/// Whether the interner surely has a symbol for the texture of a document
/// and for each identifier that its records will bring, even if every one
/// of them is new.
pub open spec fn has_room(state: Staging, document: recipe::Document) -> bool {
    state.symbols.len() + 1 + document_trace(document).len() <= u32::MAX
}

/// Room for every identifier, counted as if each were new, is room for
/// those that are.
pub proof fn lemma_room_fits(state: Staging, document: recipe::Document)
    requires
        state.symbols.no_duplicates(),
        has_room(state, document),
    ensures
        fits(with_machine(state, document), document_trace(document)),
{
    law_intern_extends(state.symbols, document.texture);
    lemma_register_all_bound(with_machine(state, document), document_trace(document));
}

/// Normalises a document if it can be normalised, and leaves the staging
/// database as it is otherwise. The document is taken when each of its
/// records is supported and the interner has room for all its identifiers.
pub fn try_import_recipes(db: &mut RecipeDatabase, instance: &recipe::CraftingInstance) -> (done:
    bool)
    requires
        old(db).wf(),
    ensures
        final(db).wf(),
        done == (document_supported(instance@) && has_room(old(db)@, instance@)),
        done ==> registered(
            with_machine(old(db)@, instance@),
            final(db)@,
            document_trace(instance@),
        ) && staged(
            old(db)@,
            final(db)@,
            machine_symbol(old(db)@, instance@),
            document_recipes(instance@),
        ),
        !done ==> final(db)@ == old(db)@,
{
    if !is_supported_document(instance) {
        return false;
    }
    let held: u64 = length(db.num_symbols());
    let met: u64 = document_trace_len(instance);
    let needed: u64 = add_capped(
        held,
        1,
        Ghost(db@.symbols.len() as int),
        Ghost(1),
    );
    let needed: u64 = add_capped(
        needed,
        met,
        Ghost(db@.symbols.len() as int + 1),
        Ghost(document_trace(instance@).len() as int),
    );
    if needed > 4294967295 {
        return false;
    }
    proof {
        lemma_room_fits(db@, instance@);
    }
    import_recipes(db, instance);
    true
}

/// The interner grows by no more than one string for each tooltip.
pub proof fn lemma_tooltips_bound(state: Staging, entries: Seq<(Seq<char>, Seq<char>)>)
    ensures
        with_tooltips(state, entries).symbols.len() <= state.symbols.len() + entries.len(),
    decreases entries.len(),
{
    if entries.len() > 0 {
        lemma_tooltips_bound(state, entries.drop_last());
    }
}

/// Takes the tooltips over if the interner surely has room for each of
/// their identifiers, and leaves the staging database as it is otherwise.
pub fn try_import_tooltips(db: &mut RecipeDatabase, entries: Vec<(String, String)>) -> (done: bool)
    requires
        old(db).wf(),
    ensures
        final(db).wf(),
        done == (old(db)@.symbols.len() + entries@.len() <= u32::MAX),
        done ==> final(db)@ == with_tooltips(old(db)@, tooltip_views(entries@)),
        !done ==> final(db)@ == old(db)@,
{
    let needed: u64 = add_capped(
        length(db.num_symbols()),
        length(entries.len()),
        Ghost(db@.symbols.len() as int),
        Ghost(entries@.len() as int),
    );
    if needed > 4294967295 {
        return false;
    }
    proof {
        lemma_tooltips_bound(db@, tooltip_views(entries@));
    }
    import_tooltips(db, entries);
    true
}

} // verus!
