//! The bulk load: what is written to the store, in which order and in which
//! batches. The store itself is somebody else's business; this module turns
//! the staging database into rows and takes the store's answers back.
use vstd::prelude::*;
use std::collections::HashMap;
use crate::interner::SymbolId;
use crate::recipe_db::{keep_first, lists_items, RecipeDatabase};
use crate::sql::{NewCraftingComponent, NewInputSlot, NewItem, NewOutput, NewRecipe};
use crate::types::{CraftingSlot, Recipe, RecipeComponent, RecipeView};

verus! {

broadcast use vstd::std_specs::hash::group_hash_axioms;

/// The numbers that the store has given to symbols. What is known of a
/// symbol stays: a symbol is looked up in the store once.
pub struct StoreIds {
    ids: HashMap<usize, i32>,
}

impl View for StoreIds {
    type V = Map<usize, i32>;

    closed spec fn view(&self) -> Map<usize, i32> {
        self.ids@
    }
}

impl StoreIds {
    /// Nothing is known yet.
    pub fn new() -> (ids: StoreIds)
        ensures
            ids@ == Map::<usize, i32>::empty(),
    {
        StoreIds { ids: HashMap::new() }
    }

    /// The store's number for a symbol, if it has been looked up.
    pub fn get(&self, symbol: SymbolId) -> (id: Option<i32>)
        ensures
            id == (if self@.contains_key(symbol.index) {
                Some(self@[symbol.index])
            } else {
                None
            }),
    {
        match self.ids.get(&symbol.index) {
            Some(id) => Some(*id),
            None => None,
        }
    }

    /// Takes the store's answer for a machine, of which the store must hold
    /// exactly one row.
    pub fn record_unique(&mut self, symbol: SymbolId, found: &Vec<i32>) -> (id: i32)
        requires
            found@.len() == 1,
        ensures
            final(self)@ == keep_first(old(self)@, symbol.index, found@[0]),
            id == final(self)@[symbol.index],
    {
        self.record(symbol, found)
    }

    /// Takes the store's answer for a symbol: the first row found is its
    /// number, unless the symbol already has one. Returns the number that the
    /// symbol has from now on.
    pub fn record(&mut self, symbol: SymbolId, found: &Vec<i32>) -> (id: i32)
        requires
            found@.len() > 0,
        ensures
            final(self)@ == keep_first(old(self)@, symbol.index, found@[0]),
            id == final(self)@[symbol.index],
    {
        match self.ids.get(&symbol.index) {
            Some(id) => *id,
            None => {
                let id: i32 = found[0];
                self.ids.insert(symbol.index, id);
                id
            },
        }
    }
}

/// Whether the store's number is known for every ingredient among
/// `elements`.
pub open spec fn all_numbered(elements: Seq<RecipeComponent>, ids: Map<usize, i32>) -> bool {
    forall|i: int|
        0 <= i < elements.len() ==> ids.contains_key((#[trigger] elements[i]).symbol().index)
}

/// The rows that open the input slots of a recipe: one for each slot.
pub fn input_slot_rows(recipe: &Recipe, rid: i32) -> (rows: Vec<NewInputSlot>)
    ensures
        rows@ == Seq::new(recipe@.inputs.len(), |i: int| NewInputSlot { for_recipe: rid }),
{
    let mut rows: Vec<NewInputSlot> = Vec::new();
    let mut i: usize = 0;
    while i < recipe.inputs.len()
        invariant
            i <= recipe.inputs.len(),
            rows@ == Seq::new(i as nat, |i: int| NewInputSlot { for_recipe: rid }),
        decreases recipe.inputs.len() - i,
    {
        rows.push(NewInputSlot { for_recipe: rid });
        i += 1;
        assert(rows@ =~= Seq::new(i as nat, |i: int| NewInputSlot { for_recipe: rid }));
    }
    rows
}

/// The row of one alternative of an input slot.
pub open spec fn component_row(
    element: RecipeComponent,
    slot_id: i32,
    ids: Map<usize, i32>,
) -> NewCraftingComponent {
    NewCraftingComponent {
        crafting_slot: slot_id,
        quantity: element.quantity(),
        item: ids[element.symbol().index],
    }
}

/// The rows of an input slot: one for each of its alternatives, in order.
pub fn component_rows(slot: &CraftingSlot, slot_id: i32, items: &StoreIds) -> (rows: Vec<
    NewCraftingComponent,
>)
    requires
        all_numbered(slot@, items@),
    ensures
        rows@ == slot@.map_values(|e: RecipeComponent| component_row(e, slot_id, items@)),
{
    let mut rows: Vec<NewCraftingComponent> = Vec::new();
    let mut i: usize = 0;
    while i < slot.allowed_elements.len()
        invariant
            i <= slot.allowed_elements.len(),
            all_numbered(slot@, items@),
            rows@ == slot@.take(i as int).map_values(
                |e: RecipeComponent| component_row(e, slot_id, items@),
            ),
        decreases slot.allowed_elements.len() - i,
    {
        let elem = &slot.allowed_elements[i];
        proof {
            assert(slot@[i as int] == *elem);
        }
        let item = items.get(elem.get_name());
        rows.push(
            NewCraftingComponent {
                crafting_slot: slot_id,
                quantity: elem.get_quantity(),
                item: item.unwrap(),
            },
        );
        i += 1;
        assert(rows@ =~= slot@.take(i as int).map_values(
            |e: RecipeComponent| component_row(e, slot_id, items@),
        ));
    }
    proof {
        assert(slot@.take(i as int) =~= slot@);
    }
    rows
}

/// The row of one output of a recipe.
pub open spec fn output_row(element: RecipeComponent, rid: i32, ids: Map<usize, i32>) -> NewOutput {
    NewOutput { recipe: rid, quantity: element.quantity(), item: ids[element.symbol().index] }
}

/// The rows of a recipe's outputs, in order.
pub fn output_rows(target: &Recipe, rid: i32, items: &StoreIds) -> (rows: Vec<NewOutput>)
    requires
        all_numbered(target@.outputs, items@),
    ensures
        rows@ == target@.outputs.map_values(|e: RecipeComponent| output_row(e, rid, items@)),
{
    let mut rows: Vec<NewOutput> = Vec::new();
    let mut i: usize = 0;
    while i < target.outputs.len()
        invariant
            i <= target.outputs.len(),
            all_numbered(target@.outputs, items@),
            rows@ == target@.outputs.take(i as int).map_values(
                |e: RecipeComponent| output_row(e, rid, items@),
            ),
        decreases target.outputs.len() - i,
    {
        let output = &target.outputs[i];
        proof {
            assert(target@.outputs[i as int] == *output);
        }
        let item = items.get(output.get_name());
        rows.push(
            NewOutput { recipe: rid, quantity: output.get_quantity(), item: item.unwrap() },
        );
        i += 1;
        assert(rows@ =~= target@.outputs.take(i as int).map_values(
            |e: RecipeComponent| output_row(e, rid, items@),
        ));
    }
    proof {
        assert(target@.outputs.take(i as int) =~= target@.outputs);
    }
    rows
}

/// The first ingredient among `elements` whose number the store has not
/// been asked for yet; `None` once every one is numbered.
pub fn first_missing(elements: &Vec<RecipeComponent>, items: &StoreIds) -> (missing: Option<
    SymbolId,
>)
    ensures
        missing is None <==> all_numbered(elements@, items@),
        missing matches Some(symbol) ==> exists|i: int|
            0 <= i < elements@.len() && #[trigger] elements@[i].symbol() == symbol
                && !items@.contains_key(symbol.index) && all_numbered(elements@.take(i), items@),
{
    let mut i: usize = 0;
    while i < elements.len()
        invariant
            i <= elements.len(),
            all_numbered(elements@.take(i as int), items@),
        decreases elements.len() - i,
    {
        let symbol = elements[i].get_name();
        if items.get(symbol).is_none() {
            proof {
                assert(elements@[i as int].symbol() == symbol);
            }
            return Some(symbol);
        }
        i += 1;
        proof {
            assert forall|k: int| 0 <= k < elements@.take(i as int).len() implies items@.contains_key(
                (#[trigger] elements@.take(i as int)[k]).symbol().index,
            ) by {
                if k < i - 1 {
                    assert(elements@.take(i as int - 1)[k] == elements@.take(i as int)[k]);
                }
            }
        }
    }
    proof {
        assert(elements@.take(i as int) =~= elements@);
    }
    None
}

/// Whether the store's number is known for the machine of every staged
/// recipe.
pub open spec fn machines_numbered(recipes: Seq<RecipeView>, ids: Map<usize, i32>) -> bool {
    forall|i: int| 0 <= i < recipes.len() ==> ids.contains_key((#[trigger] recipes[i]).machine.index)
}

/// The rows of the staged recipes, in the order in which they were staged.
pub fn recipe_rows(db: &RecipeDatabase, machines: &StoreIds) -> (rows: Vec<NewRecipe>)
    requires
        machines_numbered(db@.recipes, machines@),
    ensures
        rows@ == db@.recipes.map_values(
            |r: RecipeView| NewRecipe { machine: machines@[r.machine.index] },
        ),
{
    let staged = db.recipes();
    let ghost recipes = db@.recipes;
    let mut rows: Vec<NewRecipe> = Vec::new();
    let mut i: usize = 0;
    while i < staged.len()
        invariant
            i <= staged.len(),
            recipes == staged@.map_values(|r: Recipe| r@),
            machines_numbered(recipes, machines@),
            rows@ == recipes.take(i as int).map_values(
                |r: RecipeView| NewRecipe { machine: machines@[r.machine.index] },
            ),
        decreases staged.len() - i,
    {
        proof {
            assert(recipes[i as int] == staged@[i as int]@);
        }
        let machine = machines.get(staged[i].machine);
        rows.push(NewRecipe { machine: machine.unwrap() });
        i += 1;
        assert(rows@ =~= recipes.take(i as int).map_values(
            |r: RecipeView| NewRecipe { machine: machines@[r.machine.index] },
        ));
    }
    proof {
        assert(recipes.take(i as int) =~= recipes);
    }
    rows
}

/// The first staged recipe whose machine the store has not numbered yet;
/// `None` once every machine is numbered.
pub fn first_unnumbered_machine(db: &RecipeDatabase, machines: &StoreIds) -> (missing: Option<
    SymbolId,
>)
    ensures
        missing is None <==> machines_numbered(db@.recipes, machines@),
        missing matches Some(symbol) ==> exists|i: int|
            0 <= i < db@.recipes.len() && #[trigger] db@.recipes[i].machine == symbol
                && !machines@.contains_key(symbol.index) && machines_numbered(
                db@.recipes.take(i),
                machines@,
            ),
{
    let staged = db.recipes();
    let ghost recipes = db@.recipes;
    let mut i: usize = 0;
    while i < staged.len()
        invariant
            i <= staged.len(),
            recipes == db@.recipes,
            recipes == staged@.map_values(|r: Recipe| r@),
            forall|k: int| 0 <= k < i ==> machines@.contains_key((#[trigger] recipes[k]).machine.index),
        decreases staged.len() - i,
    {
        proof {
            assert(recipes[i as int] == staged@[i as int]@);
        }
        let symbol = staged[i].machine;
        if machines.get(symbol).is_none() {
            proof {
                assert(!machines@.contains_key(recipes[i as int].machine.index));
                assert(recipes[i as int].machine == symbol);
                assert forall|k: int| 0 <= k < recipes.take(i as int).len() implies machines@.contains_key(
                    (#[trigger] recipes.take(i as int)[k]).machine.index,
                ) by {
                    assert(recipes.take(i as int)[k] == recipes[k]);
                }
            }
            return Some(symbol);
        }
        i += 1;
    }
    None
}

/// Items are written to the store in batches of this many rows.
pub const ITEM_BATCH_SIZE: usize = 5000;

/// Recipes are written to the store in chunks of this many rows.
pub const RECIPE_CHUNK_SIZE: usize = 8192;

/// What a list of batches holds, batch by batch.
pub open spec fn batch_views<T>(cut: Seq<Vec<T>>) -> Seq<Seq<T>> {
    cut.map_values(|b: Vec<T>| b@)
}

/// Cuts rows into batches as they are written while a list is built: a
/// batch is closed as soon as it is full, and what is left at the end makes
/// the last batch, which may be empty.
pub fn batches<T>(rows: Vec<T>, size: usize) -> (cut: Vec<Vec<T>>)
    requires
        size > 0,
    ensures
        batch_views(cut@).flatten() == rows@,
        cut@.len() == rows@.len() as int / size as int + 1,
        forall|b: int| 0 <= b < cut@.len() - 1 ==> (#[trigger] cut@[b])@.len() == size,
        cut@[cut@.len() - 1]@.len() == rows@.len() as int % size as int,
{
    let ghost all = rows@;
    let mut cut: Vec<Vec<T>> = Vec::new();
    let mut current: Vec<T> = Vec::new();
    proof {
        assert(batch_views(cut@) =~= Seq::<Seq<T>>::empty());
        assert(all.take(0) =~= Seq::<T>::empty());
        assert(0 * (size as int) == 0) by (nonlinear_arith);
    }
    for row in iter: rows
        invariant
            size > 0,
            iter.seq() == all,
            batch_views(cut@).flatten() + current@ == all.take(iter.index()),
            forall|b: int| 0 <= b < cut@.len() ==> (#[trigger] cut@[b])@.len() == size,
            current@.len() < size,
            iter.index() == cut@.len() * (size as int) + current@.len(),
    {
        let ghost before = batch_views(cut@).flatten();
        let ghost held = current@;
        current.push(row);
        proof {
            assert(all.take(iter.index() + 1) =~= all.take(iter.index()).push(row));
            assert(before + current@ =~= (before + held).push(row));
        }
        if current.len() == size {
            let ghost closed = current@;
            let ghost prior = cut@;
            let ghost count = cut@.len() as int;
            cut.push(current);
            current = Vec::new();
            proof {
                assert(batch_views(cut@) =~= batch_views(prior).push(closed));
                batch_views(prior).lemma_flatten_push(closed);
                assert(batch_views(cut@).flatten() + current@ =~= before + closed);
                assert((count + 1) * (size as int) == count * (size as int) + (size as int))
                    by (nonlinear_arith);
            }
        }
    }
    let ghost count = cut@.len() as int;
    let ghost rest = current@;
    let ghost prior = cut@;
    cut.push(current);
    proof {
        assert(all.take(all.len() as int) =~= all);
        assert(batch_views(cut@) =~= batch_views(prior).push(rest));
        batch_views(prior).lemma_flatten_push(rest);
        vstd::arithmetic::div_mod::lemma_fundamental_div_mod_converse(
            all.len() as int,
            size as int,
            count,
            rest.len() as int,
        );
    }
    cut
}

/// Cuts rows into chunks of `size` rows; only the last chunk may hold fewer,
/// and no chunk is empty.
pub fn chunks<T>(rows: Vec<T>, size: usize) -> (cut: Vec<Vec<T>>)
    requires
        size > 0,
    ensures
        batch_views(cut@).flatten() == rows@,
        forall|b: int| 0 <= b < cut@.len() - 1 ==> (#[trigger] cut@[b])@.len() == size,
        cut@.len() > 0 ==> 0 < cut@[cut@.len() - 1]@.len() <= size,
        cut@.len() == 0 <==> rows@.len() == 0,
{
    let mut cut = batches(rows, size);
    let last: usize = cut.len() - 1;
    if cut[last].len() == 0 {
        let ghost whole = batch_views(cut@);
        let ghost prior = cut@;
        cut.pop();
        proof {
            assert(prior[prior.len() - 1]@ =~= Seq::<T>::empty());
            assert(whole =~= batch_views(cut@).push(Seq::<T>::empty()));
            batch_views(cut@).lemma_flatten_push(Seq::<T>::empty());
            assert(batch_views(cut@).flatten() + Seq::<T>::empty() =~= batch_views(
                cut@,
            ).flatten());
            if cut@.len() == 0 {
                assert(batch_views(cut@) =~= Seq::<Seq<T>>::empty());
            } else {
                lemma_flatten_not_empty(batch_views(cut@), cut@.len() - 1);
            }
        }
    } else {
        proof {
            lemma_flatten_not_empty(batch_views(cut@), cut@.len() - 1);
        }
    }
    cut
}

/// A list with a batch that is not empty is not empty when laid end to end.
pub proof fn lemma_flatten_not_empty<T>(cut: Seq<Seq<T>>, b: int)
    requires
        0 <= b < cut.len(),
        cut[b].len() > 0,
    ensures
        cut.flatten().len() > 0,
{
    cut.lemma_flatten_length_ge_single_element_length(b);
    cut.lemma_flatten_and_flatten_alt_are_equivalent();
}

/// The number of recipes from one progress report to the next: a hundredth
/// part of the staged recipes, and one where there are fewer than a hundred.
pub open spec fn progress_step(total: int) -> int {
    if total / 100 == 0 {
        1
    } else {
        total / 100
    }
}

/// Whether the progress of the load is reported after recipe `i`. A load of
/// fewer than a hundred recipes reports each of them.
pub fn progress_due(i: usize, total: usize) -> (due: bool)
    ensures
        due == (i as int % progress_step(total as int) == 0),
{
    let hundredth: usize = total / 100;
    let step: usize = if hundredth == 0 {
        1
    } else {
        hundredth
    };
    i % step == 0
}

/// The item rows of the bulk load, cut into the batches in which they are
/// written.
pub fn item_batches(db: &RecipeDatabase) -> (cut: Vec<Vec<NewItem<'_>>>)
    requires
        db.wf(),
        db@.items_ready(),
    ensures
        lists_items(db@, batch_views(cut@).flatten().map_values(|r: NewItem| r@)),
        cut@.len() == db@.kinds.dom().len() as int / 5000 + 1,
        forall|b: int| 0 <= b < cut@.len() - 1 ==> (#[trigger] cut@[b])@.len() == 5000,
        cut@[cut@.len() - 1]@.len() == db@.kinds.dom().len() as int % 5000,
{
    let rows = db.item_rows();
    proof {
        let views = rows@.map_values(|r: NewItem| r@);
        let keys = choose|keys: Seq<usize>|
            crate::recipe_db::walks(db@.kinds, keys) && views == keys.map_values(
                |k: usize| crate::recipe_db::item_row(db@, k),
            );
        keys.unique_seq_to_set();
        assert(rows@.len() == views.len() == keys.len());
        assert(keys.to_set().len() == db@.kinds.dom().len());
    }
    batches(rows, ITEM_BATCH_SIZE)
}

/// The rows of the staged recipes, cut into the chunks in which they are
/// written. The store numbers the recipes of each chunk in order.
pub fn recipe_chunks(db: &RecipeDatabase, machines: &StoreIds) -> (cut: Vec<Vec<NewRecipe>>)
    requires
        machines_numbered(db@.recipes, machines@),
    ensures
        batch_views(cut@).flatten() == db@.recipes.map_values(
            |r: RecipeView| NewRecipe { machine: machines@[r.machine.index] },
        ),
        forall|b: int| 0 <= b < cut@.len() - 1 ==> (#[trigger] cut@[b])@.len() == 8192,
        cut@.len() > 0 ==> 0 < cut@[cut@.len() - 1]@.len() <= 8192,
        cut@.len() == 0 <==> db@.recipes.len() == 0,
{
    chunks(recipe_rows(db, machines), RECIPE_CHUNK_SIZE)
}

/// What a list of statements says.
pub open spec fn statement_texts(statements: Seq<&'static str>) -> Seq<Seq<char>> {
    statements.map_values(|s: &'static str| s@)
}

/// The statements that open the bulk load of slots and outputs: they drop
/// the foreign keys and the secondary indexes of the tables that are about
/// to be written. They are run in this order; until the statements of
/// `enable_recipe_fks` have run, the store does not enforce these
/// constraints.
pub fn disable_recipe_fks() -> (statements: Vec<&'static str>)
    ensures
        statement_texts(statements@) == seq![
            "ALTER TABLE mccraft.input_slots DROP CONSTRAINT input_slots_for_recipe_fkey"@,
            "ALTER TABLE mccraft.crafting_components DROP CONSTRAINT crafting_components_crafting_slot_fkey"@,
            "ALTER TABLE mccraft.crafting_components DROP CONSTRAINT crafting_components_item_fkey"@,
            "ALTER TABLE mccraft.outputs DROP CONSTRAINT outputs_item_fkey"@,
            "ALTER TABLE mccraft.outputs DROP CONSTRAINT outputs_recipe_fkey"@,
            "DROP INDEX crafting_component_item"@,
            "DROP INDEX crafting_component_slot"@,
            "DROP INDEX output_item"@,
        ],
{
    let mut statements: Vec<&'static str> = Vec::new();
    // Drop foreign key constraints
    statements.push("ALTER TABLE mccraft.input_slots DROP CONSTRAINT input_slots_for_recipe_fkey");
    statements.push(
        "ALTER TABLE mccraft.crafting_components DROP CONSTRAINT crafting_components_crafting_slot_fkey",
    );
    statements.push(
        "ALTER TABLE mccraft.crafting_components DROP CONSTRAINT crafting_components_item_fkey",
    );
    statements.push("ALTER TABLE mccraft.outputs DROP CONSTRAINT outputs_item_fkey");
    statements.push("ALTER TABLE mccraft.outputs DROP CONSTRAINT outputs_recipe_fkey");
    // Drop indexes
    statements.push("DROP INDEX crafting_component_item");
    statements.push("DROP INDEX crafting_component_slot");
    statements.push("DROP INDEX output_item");
    assert(statement_texts(statements@) =~= seq![
        "ALTER TABLE mccraft.input_slots DROP CONSTRAINT input_slots_for_recipe_fkey"@,
        "ALTER TABLE mccraft.crafting_components DROP CONSTRAINT crafting_components_crafting_slot_fkey"@,
        "ALTER TABLE mccraft.crafting_components DROP CONSTRAINT crafting_components_item_fkey"@,
        "ALTER TABLE mccraft.outputs DROP CONSTRAINT outputs_item_fkey"@,
        "ALTER TABLE mccraft.outputs DROP CONSTRAINT outputs_recipe_fkey"@,
        "DROP INDEX crafting_component_item"@,
        "DROP INDEX crafting_component_slot"@,
        "DROP INDEX output_item"@,
    ]);
    statements
}

/// The statements that close the bulk load: they add the foreign keys and
/// the secondary indexes again, in this order.
pub fn enable_recipe_fks() -> (statements: Vec<&'static str>)
    ensures
        statement_texts(statements@) == seq![
            "ALTER TABLE mccraft.input_slots ADD CONSTRAINT input_slots_for_recipe_fkey FOREIGN KEY (for_recipe) REFERENCES mccraft.recipes(id)\n"@,
            "ALTER TABLE mccraft.crafting_components ADD CONSTRAINT crafting_components_crafting_slot_fkey FOREIGN KEY (crafting_slot) REFERENCES mccraft.input_slots(id)"@,
            "ALTER TABLE mccraft.crafting_components ADD CONSTRAINT crafting_components_item_fkey FOREIGN KEY (item) REFERENCES mccraft.items(id)"@,
            "ALTER TABLE mccraft.outputs ADD CONSTRAINT outputs_item_fkey FOREIGN KEY (item) REFERENCES mccraft.items(id)"@,
            "ALTER TABLE mccraft.outputs ADD CONSTRAINT outputs_recipe_fkey FOREIGN KEY (recipe) REFERENCES mccraft.recipes(id)"@,
            "CREATE INDEX crafting_component_item ON crafting_components USING hash (item)"@,
            "CREATE INDEX crafting_component_slot ON crafting_components USING hash (crafting_slot)"@,
            "CREATE INDEX output_item ON outputs USING hash (item)"@,
        ],
{
    let mut statements: Vec<&'static str> = Vec::new();
    // Re-add foreign key constraints
    statements.push(
        "ALTER TABLE mccraft.input_slots ADD CONSTRAINT input_slots_for_recipe_fkey FOREIGN KEY (for_recipe) REFERENCES mccraft.recipes(id)\n",
    );
    statements.push(
        "ALTER TABLE mccraft.crafting_components ADD CONSTRAINT crafting_components_crafting_slot_fkey FOREIGN KEY (crafting_slot) REFERENCES mccraft.input_slots(id)",
    );
    statements.push(
        "ALTER TABLE mccraft.crafting_components ADD CONSTRAINT crafting_components_item_fkey FOREIGN KEY (item) REFERENCES mccraft.items(id)",
    );
    statements.push(
        "ALTER TABLE mccraft.outputs ADD CONSTRAINT outputs_item_fkey FOREIGN KEY (item) REFERENCES mccraft.items(id)",
    );
    statements.push(
        "ALTER TABLE mccraft.outputs ADD CONSTRAINT outputs_recipe_fkey FOREIGN KEY (recipe) REFERENCES mccraft.recipes(id)",
    );
    // Re-add indexes
    statements.push("CREATE INDEX crafting_component_item ON crafting_components USING hash (item)");
    statements.push(
        "CREATE INDEX crafting_component_slot ON crafting_components USING hash (crafting_slot)",
    );
    statements.push("CREATE INDEX output_item ON outputs USING hash (item)");
    assert(statement_texts(statements@) =~= seq![
        "ALTER TABLE mccraft.input_slots ADD CONSTRAINT input_slots_for_recipe_fkey FOREIGN KEY (for_recipe) REFERENCES mccraft.recipes(id)\n"@,
        "ALTER TABLE mccraft.crafting_components ADD CONSTRAINT crafting_components_crafting_slot_fkey FOREIGN KEY (crafting_slot) REFERENCES mccraft.input_slots(id)"@,
        "ALTER TABLE mccraft.crafting_components ADD CONSTRAINT crafting_components_item_fkey FOREIGN KEY (item) REFERENCES mccraft.items(id)"@,
        "ALTER TABLE mccraft.outputs ADD CONSTRAINT outputs_item_fkey FOREIGN KEY (item) REFERENCES mccraft.items(id)"@,
        "ALTER TABLE mccraft.outputs ADD CONSTRAINT outputs_recipe_fkey FOREIGN KEY (recipe) REFERENCES mccraft.recipes(id)"@,
        "CREATE INDEX crafting_component_item ON crafting_components USING hash (item)"@,
        "CREATE INDEX crafting_component_slot ON crafting_components USING hash (crafting_slot)"@,
        "CREATE INDEX output_item ON outputs USING hash (item)"@,
    ]);
    statements
}

} // verus!
