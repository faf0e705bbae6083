use mccraft::capacity::{
    covariant_slot_count, document_trace_len, expansion_trace_len, fluids_trace_len,
    record_trace_len, template_trace_len, try_import_recipes, try_import_tooltips, LIMIT,
};
use mccraft::json::recipe::{
    BackgroundImage, CraftingInstance, Fluid, IngredientFluid, IngredientItem, ItemStack, Recipe,
};
use mccraft::recipe_db::RecipeDatabase;

fn stacks(names: &[&str]) -> Vec<ItemStack> {
    names.iter().map(|name| ItemStack { amount: 1, ty: name.to_string() }).collect()
}

fn item_slot(is_input: bool, names: &[&str]) -> IngredientItem {
    IngredientItem { p: 0, is_input, stacks: stacks(names) }
}

fn fluid_slot(is_input: bool, names: &[&str]) -> IngredientFluid {
    IngredientFluid {
        p: 0,
        is_input,
        fluids: names.iter().map(|name| Fluid { amount: 1, ty: name.to_string() }).collect(),
    }
}

fn saw() -> Recipe {
    Recipe {
        ingredient_items: vec![
            item_slot(false, &["a0", "a1"]),
            item_slot(true, &["b0", "b1"]),
            item_slot(true, &["c0", "c1", "c2"]),
            item_slot(true, &[]),
        ],
        ingredient_fluids: vec![fluid_slot(true, &["w", "x"]), fluid_slot(false, &["y"])],
    }
}

fn document(recipes: Vec<Recipe>) -> CraftingInstance {
    CraftingInstance {
        category: "Saw".to_string(),
        bg: BackgroundImage { width: 0, height: 0, tex: "tex/saw".to_string() },
        recipes,
    }
}

#[test]
fn identifiers_are_counted_as_they_will_be_met() {
    let record = saw();
    assert_eq!(fluids_trace_len(&record), 3);
    assert_eq!(template_trace_len(&record, 2), 6);
    assert_eq!(template_trace_len(&record, 3), 6);
    assert_eq!(template_trace_len(&record, 0), 9);
    assert_eq!(covariant_slot_count(&record, 2), 2);
    assert_eq!(covariant_slot_count(&record, 3), 1);
    assert_eq!(covariant_slot_count(&record, 0), 0);
    assert_eq!(expansion_trace_len(&record, 2), 10);
    assert_eq!(expansion_trace_len(&record, 3), 9);
    assert_eq!(record_trace_len(&record), 21);
    assert_eq!(document_trace_len(&document(vec![saw(), saw()])), 42);
    assert_eq!(document_trace_len(&document(vec![])), 0);
    assert_eq!(LIMIT, 4294967296);
}

#[test]
fn a_supported_document_is_taken() {
    let mut db = RecipeDatabase::new();
    assert!(try_import_recipes(&mut db, &document(vec![saw()])));
    assert_eq!(db.num_recipes(), 2);
    assert_eq!(db.num_symbols(), 11);
}

#[test]
fn an_unsupported_document_leaves_the_database_alone() {
    let mut db = RecipeDatabase::new();
    let bad = Recipe {
        ingredient_items: vec![item_slot(true, &["bucket"])],
        ingredient_fluids: vec![fluid_slot(false, &["water", "lava"])],
    };
    assert!(!try_import_recipes(&mut db, &document(vec![saw(), bad])));
    assert_eq!(db.num_recipes(), 0);
    assert_eq!(db.num_symbols(), 0);
}

#[test]
fn tooltips_are_taken_when_there_is_room() {
    let mut db = RecipeDatabase::new();
    assert!(try_import_tooltips(&mut db, vec![
        ("ore".to_string(), "Ore".to_string()),
        ("ingot".to_string(), "Ingot".to_string()),
    ]));
    assert_eq!(db.num_symbols(), 2);
    assert!(try_import_tooltips(&mut db, vec![]));
    assert_eq!(db.num_symbols(), 2);
}
