use mccraft::interner::{StringInterner, SymbolId};
use mccraft::recipe_db::RecipeDatabase;
use mccraft::sql::ItemType;

#[test]
fn equal_strings_share_a_symbol() {
    let mut interner = StringInterner::new();
    let first = interner.get_or_intern("minecraft:iron_ore");
    let second = interner.get_or_intern("minecraft:iron_ore");
    assert_eq!(first, second);
    assert_eq!(interner.len(), 1);
}

#[test]
fn distinct_strings_get_distinct_symbols() {
    let mut interner = StringInterner::new();
    let ore = interner.get_or_intern("ore");
    let ingot = interner.get_or_intern("ingot");
    let water = interner.get_or_intern("water");
    assert_ne!(ore, ingot);
    assert_ne!(ore, water);
    assert_ne!(ingot, water);
    assert_eq!(interner.get_or_intern("ingot"), ingot);
    assert_eq!(interner.len(), 3);
}

#[test]
fn symbols_are_dense_and_in_order_of_arrival() {
    let mut interner = StringInterner::new();
    assert_eq!(interner.get_or_intern("a"), SymbolId { index: 0 });
    assert_eq!(interner.get_or_intern("b"), SymbolId { index: 1 });
    assert_eq!(interner.get_or_intern("a"), SymbolId { index: 0 });
    assert_eq!(interner.get_or_intern("c"), SymbolId { index: 2 });
}

#[test]
fn resolve_gives_the_interned_string_back() {
    let mut interner = StringInterner::new();
    let ore = interner.get_or_intern("ore");
    let ingot = interner.get_or_intern("ingot");
    assert_eq!(interner.resolve(ore), Some("ore"));
    assert_eq!(interner.resolve(ingot), Some("ingot"));
}

#[test]
fn resolve_of_a_symbol_never_handed_out_is_none() {
    let mut interner = StringInterner::new();
    interner.get_or_intern("ore");
    assert_eq!(interner.resolve(SymbolId { index: 1 }), None);
    assert_eq!(interner.resolve(SymbolId { index: usize::MAX }), None);
    assert_eq!(StringInterner::new().resolve(SymbolId { index: 0 }), None);
}

#[test]
fn the_empty_string_is_a_string_like_any_other() {
    let mut interner = StringInterner::new();
    let empty = interner.get_or_intern("");
    let other = interner.get_or_intern("x");
    assert_ne!(empty, other);
    assert_eq!(interner.resolve(empty), Some(""));
}

#[test]
fn database_interns_through_its_own_interner() {
    let mut db = RecipeDatabase::new();
    let ore = db.get_or_intern("ore");
    let again = db.get_or_intern("ore");
    let ingot = db.get_or_intern("ingot");
    assert_eq!(ore, again);
    assert_ne!(ore, ingot);
    assert_eq!(db.num_symbols(), 2);
    assert_eq!(db.resolve(ore), Some("ore"));
    assert_eq!(db.resolve(ingot), Some("ingot"));
    assert_eq!(db.resolve(SymbolId { index: 2 }), None);
}

#[test]
fn machine_registration_keeps_the_first_name() {
    let mut db = RecipeDatabase::new();
    let machine = db.get_or_intern("textures/gui/furnace.png");
    db.add_machine(machine, "Furnace".to_string());
    db.add_machine(machine, "Smelter".to_string());
    assert_eq!(db.machine_name(machine), Some(&"Furnace".to_string()));
}

#[test]
fn item_name_registration_keeps_the_first_name() {
    let mut db = RecipeDatabase::new();
    let ore = db.get_or_intern("ore");
    db.associate_name(ore, "Iron Ore".to_string());
    db.associate_name(ore, "Rusty Rock".to_string());
    assert_eq!(db.item_name(ore), Some(&"Iron Ore".to_string()));
}

#[test]
fn item_kind_registration_keeps_the_first_kind() {
    let mut db = RecipeDatabase::new();
    let water = db.get_or_intern("water");
    db.associate_type(water, ItemType::Fluid);
    db.associate_type(water, ItemType::Item);
    assert_eq!(db.item_type(water), Some(ItemType::Fluid));
}

#[test]
fn unregistered_symbols_have_no_entries() {
    let mut db = RecipeDatabase::new();
    let ore = db.get_or_intern("ore");
    assert_eq!(db.machine_name(ore), None);
    assert_eq!(db.item_name(ore), None);
    assert_eq!(db.item_type(ore), None);
    assert_eq!(db.num_recipes(), 0);
}
