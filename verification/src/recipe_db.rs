//! The staging database: everything one import run has normalised so far.
use vstd::prelude::*;
use std::collections::HashMap;
use vstd::std_specs::iter::IteratorSpec;
use crate::interner::{
    intern_position, intern_strings, law_intern_extends, resolve_symbol, StringInterner, SymbolId,
};
use crate::sql::{ItemRow, ItemType, MachineRow, NewItem, NewMachine};
use crate::types::{Recipe, RecipeView};

verus! {

broadcast use vstd::std_specs::hash::group_hash_axioms;

/// Database of all recipes
///
/// The side tables are keyed by the symbol's number and use the standard
/// hasher: what the verifier knows of a hash map, it knows only for a hash
/// builder that it knows to be valid.
pub struct RecipeDatabase {
    recipes: Vec<Recipe>,
    /// Interner for all the strings
    interner: StringInterner,
    /// Map from the MinecraftID for an item to its type
    types_map: HashMap<usize, ItemType>,
    /// Map from the MinecraftID for an item to its human-readable name
    names_map: HashMap<usize, String>,
    /// Map from Minecraft ID (BG texture) for a machine to its human-readable name
    machines: HashMap<usize, String>,
}

/// What a staging database holds. The side tables are keyed by symbol.
pub struct Staging {
    pub recipes: Seq<RecipeView>,
    pub symbols: Seq<Seq<char>>,
    pub kinds: Map<usize, ItemType>,
    pub names: Map<usize, Seq<char>>,
    pub machines: Map<usize, Seq<char>>,
}

/// A side table after an entry has been offered to it: the first writer
/// wins, a later value for the same key is ignored.
pub open spec fn keep_first<V>(table: Map<usize, V>, key: usize, value: V) -> Map<usize, V> {
    if table.contains_key(key) {
        table
    } else {
        table.insert(key, value)
    }
}

/// Offering a second value for a key changes nothing: the table keeps what
/// the first offer left, and a key that was free holds the first value.
pub proof fn law_first_writer_wins<V>(table: Map<usize, V>, key: usize, first: V, second: V)
    ensures
        keep_first(keep_first(table, key, first), key, second) == keep_first(table, key, first),
        keep_first(table, key, first).contains_key(key),
        !table.contains_key(key) ==> keep_first(table, key, first)[key] == first,
        table.contains_key(key) ==> keep_first(table, key, first)[key] == table[key],
{
}

/// One identifier met in a document, with the kind of the stack that named it.
pub struct Registration {
    pub name: Seq<char>,
    pub kind: ItemType,
}

/// The staging database after one identifier has been met: the name is
/// interned, and its kind is recorded unless the symbol already has one.
pub open spec fn register(state: Staging, entry: Registration) -> Staging {
    Staging {
        symbols: intern_strings(state.symbols, entry.name),
        kinds: keep_first(
            state.kinds,
            intern_position(state.symbols, entry.name) as usize,
            entry.kind,
        ),
        ..state
    }
}

/// The staging database after a run of identifiers has been met in order.
pub open spec fn register_all(state: Staging, entries: Seq<Registration>) -> Staging
    decreases entries.len(),
{
    if entries.len() == 0 {
        state
    } else {
        register(register_all(state, entries.drop_last()), entries.last())
    }
}

/// The name under which an item is shown: its human-readable name, or, for
/// an item that has none, its identifier.
pub open spec fn shown_name(state: Staging, key: usize) -> Seq<char> {
    if state.names.contains_key(key) {
        state.names[key]
    } else {
        state.symbols[key as int]
    }
}

/// The row of the item that a symbol stands for.
pub open spec fn item_row(state: Staging, key: usize) -> ItemRow {
    ItemRow {
        human_name: shown_name(state, key),
        minecraft_id: state.symbols[key as int],
        ty: state.kinds[key],
    }
}

/// The row of the machine that a symbol stands for.
pub open spec fn machine_row(state: Staging, key: usize) -> MachineRow {
    MachineRow { human_name: state.machines[key], minecraft_id: state.symbols[key as int] }
}

/// `keys` holds every key of `table` once.
pub open spec fn walks<V>(table: Map<usize, V>, keys: Seq<usize>) -> bool {
    keys.no_duplicates() && keys.to_set() == table.dom()
}

/// `rows` holds the row of every symbol with a kind, each once. The order
/// is that in which the table of kinds is walked, and no more is known of it.
pub open spec fn lists_items(state: Staging, rows: Seq<ItemRow>) -> bool {
    exists|keys: Seq<usize>|
        walks(state.kinds, keys) && rows == keys.map_values(|k: usize| item_row(state, k))
}

/// Every symbol with a kind has its row in a listing, whether it has a
/// human-readable name or not, and the listing holds one row for each.
pub proof fn law_every_kind_has_a_row(state: Staging, rows: Seq<ItemRow>, key: usize)
    requires
        lists_items(state, rows),
        state.kinds.contains_key(key),
    ensures
        rows.contains(item_row(state, key)),
        rows.len() == state.kinds.dom().len(),
{
    let keys = choose|keys: Seq<usize>|
        walks(state.kinds, keys) && rows == keys.map_values(|k: usize| item_row(state, k));
    keys.unique_seq_to_set();
    assert(keys.to_set().contains(key));
    let i = choose|i: int| 0 <= i < keys.len() && keys[i] == key;
    assert(rows[i] == item_row(state, key));
}

/// `rows` holds the row of every registered machine, each once, in the
/// order in which the table of machines is walked.
pub open spec fn lists_machines(state: Staging, rows: Seq<MachineRow>) -> bool {
    exists|keys: Seq<usize>|
        walks(state.machines, keys) && rows == keys.map_values(|k: usize| machine_row(state, k))
}

impl View for RecipeDatabase {
    type V = Staging;

    closed spec fn view(&self) -> Staging {
        Staging {
            recipes: self.recipes@.map_values(|r: Recipe| r@),
            symbols: self.interner@,
            kinds: self.types_map@,
            names: self.names_map@.map_values(|s: String| s@),
            machines: self.machines@.map_values(|s: String| s@),
        }
    }
}

impl Staging {
    /// Whether this staging database has grown out of `earlier`: what was
    /// interned is interned still, under the same symbol, and every symbol
    /// that had a kind has one.
    pub open spec fn extends(self, earlier: Staging) -> bool {
        &&& earlier.symbols.is_prefix_of(self.symbols)
        &&& earlier.kinds.dom().subset_of(self.kinds.dom())
    }

    /// No string is interned twice, every symbol can be numbered, and every
    /// staged recipe belongs to a registered machine.
    pub open spec fn wf(self) -> bool {
        &&& self.symbols.no_duplicates()
        &&& self.symbols.len() <= u32::MAX
        &&& forall|i: int|
            0 <= i < self.recipes.len() ==> self.machines.contains_key(
                (#[trigger] self.recipes[i]).machine.index,
            )
    }
}

impl Staging {
    /// Every symbol with a kind has been handed out by the interner: its
    /// row can be written.
    pub open spec fn items_ready(self) -> bool {
        forall|k: usize| #[trigger] self.kinds.contains_key(k) ==> k < self.symbols.len()
    }

    /// Every machine's symbol has been handed out by the interner.
    pub open spec fn machines_ready(self) -> bool {
        forall|k: usize| #[trigger] self.machines.contains_key(k) ==> k < self.symbols.len()
    }
}

impl RecipeDatabase {
    /// The invariant of a staging database.
    pub open spec fn wf(&self) -> bool {
        self@.wf()
    }

    /// Whether `text` can be interned: it is held already, or there is still
    /// a symbol left for it.
    pub open spec fn has_room_for(&self, text: Seq<char>) -> bool {
        self@.symbols.contains(text) || self@.symbols.len() < u32::MAX
    }

    pub fn new() -> (db: Self)
        ensures
            db.wf(),
            db@ == (Staging {
                recipes: Seq::empty(),
                symbols: Seq::empty(),
                kinds: Map::empty(),
                names: Map::empty(),
                machines: Map::empty(),
            }),
    {
        let db = RecipeDatabase {
            recipes: Vec::new(),
            interner: StringInterner::new(),
            types_map: HashMap::new(),
            names_map: HashMap::new(),
            machines: HashMap::new(),
        };
        assert(db@.recipes =~= Seq::empty());
        assert(db@.names =~= Map::empty());
        assert(db@.machines =~= Map::empty());
        db
    }

    /// Registers a machine under its symbol. A symbol that already has a
    /// machine name keeps it.
    pub fn add_machine(&mut self, machine: SymbolId, name: String)
        requires
            old(self).wf(),
        ensures
            final(self).wf(),
            final(self)@ == (Staging {
                machines: keep_first(old(self)@.machines, machine.index, name@),
                ..old(self)@
            }),
    {
        if !self.machines.contains_key(&machine.index) {
            self.machines.insert(machine.index, name);
        }
        assert(self@.machines =~= keep_first(old(self)@.machines, machine.index, name@));
    }

    /// Stages a recipe. Its machine must have been registered.
    pub fn add_recipe(&mut self, recipe: Recipe)
        requires
            old(self).wf(),
            old(self)@.machines.contains_key(recipe.machine.index),
        ensures
            final(self).wf(),
            final(self)@ == (Staging {
                recipes: old(self)@.recipes.push(recipe@),
                ..old(self)@
            }),
    {
        self.recipes.push(recipe);
        assert(self@.recipes =~= old(self)@.recipes.push(recipe@));
    }

    /// The symbol of `t`, which is interned first if it is new.
    pub fn get_or_intern(&mut self, t: &str) -> (symbol: SymbolId)
        requires
            old(self).wf(),
            old(self).has_room_for(t@),
        ensures
            final(self).wf(),
            final(self)@ == (Staging {
                symbols: intern_strings(old(self)@.symbols, t@),
                ..old(self)@
            }),
            symbol.index == intern_position(old(self)@.symbols, t@),
            symbol.index < final(self)@.symbols.len(),
            final(self)@.symbols[symbol.index as int] == t@,
    {
        proof {
            law_intern_extends(self@.symbols, t@);
        }
        self.interner.get_or_intern(t)
    }

    /// The identifier that `symbol` stands for; `None` for a symbol that this
    /// database has not handed out.
    pub fn resolve(&self, symbol: SymbolId) -> (text: Option<&str>)
        requires
            self.wf(),
        ensures
            text.is_some() == resolve_symbol(self@.symbols, symbol).is_some(),
            text.is_some() ==> text.unwrap()@ == resolve_symbol(self@.symbols, symbol).unwrap(),
    {
        self.interner.resolve(symbol)
    }

    /// Records the human-readable name of an item. A symbol that already has
    /// a name keeps it.
    pub fn associate_name(&mut self, item_id: SymbolId, human_name: String)
        requires
            old(self).wf(),
        ensures
            final(self).wf(),
            final(self)@ == (Staging {
                names: keep_first(old(self)@.names, item_id.index, human_name@),
                ..old(self)@
            }),
    {
        if !self.names_map.contains_key(&item_id.index) {
            self.names_map.insert(item_id.index, human_name);
        }
        assert(self@.names =~= keep_first(old(self)@.names, item_id.index, human_name@));
    }

    /// Records whether a symbol names an item or a fluid. A symbol that
    /// already has a kind keeps it.
    pub fn associate_type(&mut self, item_id: SymbolId, ty: ItemType)
        requires
            old(self).wf(),
        ensures
            final(self).wf(),
            final(self)@ == (Staging {
                kinds: keep_first(old(self)@.kinds, item_id.index, ty),
                ..old(self)@
            }),
    {
        if !self.types_map.contains_key(&item_id.index) {
            self.types_map.insert(item_id.index, ty);
        }
        assert(self@.kinds =~= keep_first(old(self)@.kinds, item_id.index, ty));
    }

    pub fn num_recipes(&self) -> (n: usize)
        ensures
            n == self@.recipes.len(),
    {
        self.recipes.len()
    }
    /// The staged recipes, in the order in which they were staged.
    pub fn recipes(&self) -> (staged: &Vec<Recipe>)
        ensures
            staged@.map_values(|r: Recipe| r@) == self@.recipes,
    {
        &self.recipes
    }

    /// The number of distinct identifiers interned so far.
    pub fn num_symbols(&self) -> (n: usize)
        ensures
            n == self@.symbols.len(),
    {
        self.interner.len()
    }

    /// The name under which a machine was registered.
    pub fn machine_name(&self, machine: SymbolId) -> (name: Option<&String>)
        ensures
            name.is_some() == self@.machines.contains_key(machine.index),
            name.is_some() ==> name.unwrap()@ == self@.machines[machine.index],
    {
        self.machines.get(&machine.index)
    }

    /// The human-readable name recorded for an item.
    pub fn item_name(&self, item_id: SymbolId) -> (name: Option<&String>)
        ensures
            name.is_some() == self@.names.contains_key(item_id.index),
            name.is_some() ==> name.unwrap()@ == self@.names[item_id.index],
    {
        self.names_map.get(&item_id.index)
    }

    /// The kind recorded for a symbol.
    pub fn item_type(&self, item_id: SymbolId) -> (ty: Option<ItemType>)
        ensures
            ty.is_some() == self@.kinds.contains_key(item_id.index),
            ty.is_some() ==> ty.unwrap() == self@.kinds[item_id.index],
    {
        match self.types_map.get(&item_id.index) {
            Some(ty) => Some(*ty),
            None => None,
        }
    }
    /// Whether the item rows can be written: every symbol with a kind must
    /// resolve.
    pub fn items_ready(&self) -> (ready: bool)
        requires
            self.wf(),
        ensures
            ready == self@.items_ready(),
    {
        let ghost walked = self.types_map.keys().remaining();
        for item in it: self.types_map.keys()
            invariant
                it.seq() == walked,
                walked.unref().to_set() == self.types_map@.dom(),
                forall|i: int| 0 <= i < it.index() ==> *(#[trigger] walked[i]) < self@.symbols.len(),
        {
            proof {
                assert(walked.unref()[it.index() as int] == *item);
                assert(walked.unref().to_set().contains(*item));
            }
            if *item >= self.interner.len() {
                proof {
                    assert(self@.kinds.contains_key(*item));
                }
                return false;
            }
        }
        proof {
            assert forall|k: usize| #[trigger] self@.kinds.contains_key(k) implies k
                < self@.symbols.len() by {
                assert(walked.unref().to_set().contains(k));
                let i = choose|i: int| 0 <= i < walked.unref().len() && walked.unref()[i] == k;
                assert(*walked[i] == k);
            }
        }
        true
    }

    /// The item rows of the bulk load: one for every symbol with a kind,
    /// whether a tooltip names it or not. An item without a human-readable
    /// name is written under its identifier.
    pub fn item_rows(&self) -> (rows: Vec<NewItem<'_>>)
        requires
            self.wf(),
            self@.items_ready(),
        ensures
            lists_items(self@, rows@.map_values(|r: NewItem| r@)),
    {
        let mut rows: Vec<NewItem<'_>> = Vec::new();
        let ghost walked = self.types_map.keys().remaining();
        for item in it: self.types_map.keys()
            invariant
                self.wf(),
                self@.items_ready(),
                it.seq() == walked,
                walked.unref().to_set() == self.types_map@.dom(),
                rows@.map_values(|r: NewItem| r@) == walked.unref().take(it.index()).map_values(
                    |k: usize| item_row(self@, k),
                ),
        {
            proof {
                assert(walked.unref()[it.index() as int] == *item);
                assert(walked.unref().to_set().contains(*item));
                assert(self@.kinds.contains_key(*item));
            }
            let ty = self.types_map.get(item).unwrap();
            let minecraft_id = self.interner.resolve(SymbolId { index: *item }).unwrap();
            let human_name = match self.names_map.get(item) {
                Some(name) => name.as_str(),
                None => minecraft_id,
            };
            let row = NewItem { human_name, minecraft_id, ty: *ty };
            let ghost before = rows@;
            rows.push(row);
            proof {
                assert(row@ == item_row(self@, *item));
                assert(walked.unref().take(it.index() + 1) =~= walked.unref().take(
                    it.index(),
                ).push(*item));
                assert(rows@.map_values(|r: NewItem| r@) =~= before.map_values(
                    |r: NewItem| r@,
                ).push(row@));
            }
        }
        proof {
            let keys = walked.unref();
            assert(keys.take(keys.len() as int) =~= keys);
            assert(walks(self@.kinds, keys));
        }
        rows
    }

    /// Whether the machine rows can be written: every machine's symbol must
    /// resolve.
    pub fn machines_ready(&self) -> (ready: bool)
        requires
            self.wf(),
        ensures
            ready == self@.machines_ready(),
    {
        let ghost walked = self.machines.keys().remaining();
        for mcid in it: self.machines.keys()
            invariant
                it.seq() == walked,
                walked.unref().to_set() == self.machines@.dom(),
                forall|i: int| 0 <= i < it.index() ==> *(#[trigger] walked[i]) < self@.symbols.len(),
        {
            proof {
                assert(walked.unref()[it.index() as int] == *mcid);
                assert(walked.unref().to_set().contains(*mcid));
            }
            if *mcid >= self.interner.len() {
                proof {
                    assert(self.machines@.dom().contains(*mcid));
                    assert(self@.machines.contains_key(*mcid));
                }
                return false;
            }
        }
        proof {
            assert forall|k: usize| #[trigger] self@.machines.contains_key(k) implies k
                < self@.symbols.len() by {
                assert(self.machines@.dom().contains(k));
                assert(walked.unref().to_set().contains(k));
                let i = choose|i: int| 0 <= i < walked.unref().len() && walked.unref()[i] == k;
                assert(*walked[i] == k);
            }
        }
        true
    }

    /// The machine rows of the bulk load: one for every registered machine.
    pub fn machine_rows(&self) -> (rows: Vec<NewMachine<'_>>)
        requires
            self.wf(),
            self@.machines_ready(),
        ensures
            lists_machines(self@, rows@.map_values(|r: NewMachine| r@)),
    {
        let mut rows: Vec<NewMachine<'_>> = Vec::new();
        let ghost walked = self.machines.keys().remaining();
        for mcid in it: self.machines.keys()
            invariant
                self.wf(),
                self@.machines_ready(),
                it.seq() == walked,
                walked.unref().to_set() == self.machines@.dom(),
                rows@.map_values(|r: NewMachine| r@) == walked.unref().take(
                    it.index(),
                ).map_values(|k: usize| machine_row(self@, k)),
        {
            proof {
                assert(walked.unref()[it.index() as int] == *mcid);
                assert(walked.unref().to_set().contains(*mcid));
                assert(self.machines@.dom().contains(*mcid));
                assert(self@.machines.contains_key(*mcid));
            }
            let human_name = self.machines.get(mcid).unwrap().as_str();
            let minecraft_id = self.interner.resolve(SymbolId { index: *mcid }).unwrap();
            let row = NewMachine { human_name, minecraft_id };
            let ghost before = rows@;
            rows.push(row);
            proof {
                assert(row@ == machine_row(self@, *mcid));
                assert(walked.unref().take(it.index() + 1) =~= walked.unref().take(
                    it.index(),
                ).push(*mcid));
                assert(rows@.map_values(|r: NewMachine| r@) =~= before.map_values(
                    |r: NewMachine| r@,
                ).push(row@));
            }
        }
        proof {
            let keys = walked.unref();
            assert(keys.take(keys.len() as int) =~= keys);
            assert(self@.machines.dom() =~= self.machines@.dom());
            assert(walks(self@.machines, keys));
        }
        rows
    }

    /// The symbols of the registered machines, each once, in the order in
    /// which the table of machines is walked.
    pub fn machine_symbols(&self) -> (symbols: Vec<SymbolId>)
        ensures
            walks(self@.machines, symbols@.map_values(|s: SymbolId| s.index)),
    {
        let mut symbols: Vec<SymbolId> = Vec::new();
        let ghost walked = self.machines.keys().remaining();
        for mcid in it: self.machines.keys()
            invariant
                it.seq() == walked,
                symbols@.map_values(|s: SymbolId| s.index) == walked.unref().take(it.index()),
        {
            let ghost before = symbols@;
            symbols.push(SymbolId { index: *mcid });
            proof {
                assert(walked.unref()[it.index() as int] == *mcid);
                assert(walked.unref().take(it.index() + 1) =~= walked.unref().take(
                    it.index(),
                ).push(*mcid));
                assert(symbols@.map_values(|s: SymbolId| s.index) =~= before.map_values(
                    |s: SymbolId| s.index,
                ).push(*mcid));
            }
        }
        proof {
            let keys = walked.unref();
            assert(keys.take(keys.len() as int) =~= keys);
            assert(self@.machines.dom() =~= self.machines@.dom());
        }
        symbols
    }
}

} // verus!
