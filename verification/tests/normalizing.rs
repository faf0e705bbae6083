use mccraft::importer::{
    classify_file, handle_covariant_recipe, has_single_fluid_outputs, import_record,
    import_recipes, import_tooltips, is_expandable, is_supported, is_supported_document,
    slot_from_fluids, slot_from_items,
};
use mccraft::interner::SymbolId;
use mccraft::json::recipe::{
    BackgroundImage, CraftingInstance, Fluid, IngredientFluid, IngredientItem, ItemStack, Recipe,
};
use mccraft::json::skip_nulls_list;
use mccraft::model::ExportFile;
use mccraft::recipe_db::RecipeDatabase;
use mccraft::sql::ItemType;
use mccraft::types::{CraftingSlot, RecipeComponent};

fn stack(ty: &str, amount: i32) -> ItemStack {
    ItemStack { amount, ty: ty.to_string() }
}

fn fluid(ty: &str, amount: i32) -> Fluid {
    Fluid { amount, ty: ty.to_string() }
}

fn items(is_input: bool, stacks: Vec<ItemStack>) -> IngredientItem {
    IngredientItem { p: 0, is_input, stacks }
}

fn fluids(is_input: bool, fluids: Vec<Fluid>) -> IngredientFluid {
    IngredientFluid { p: 0, is_input, fluids }
}

fn record(ingredient_items: Vec<IngredientItem>, ingredient_fluids: Vec<IngredientFluid>) -> Recipe {
    Recipe { ingredient_items, ingredient_fluids }
}

fn document(category: &str, tex: &str, recipes: Vec<Recipe>) -> CraftingInstance {
    CraftingInstance {
        category: category.to_string(),
        bg: BackgroundImage { width: 176, height: 166, tex: tex.to_string() },
        recipes,
    }
}

fn item_of(db: &RecipeDatabase, component: &RecipeComponent) -> (String, u32) {
    match component {
        RecipeComponent::ItemStack { count, name } => {
            (db.resolve(*name).unwrap().to_string(), *count)
        }
        RecipeComponent::Fluid { .. } => panic!("expected an item, found a fluid"),
    }
}

fn fluid_of(db: &RecipeDatabase, component: &RecipeComponent) -> (String, u32) {
    match component {
        RecipeComponent::Fluid { amount, name } => {
            (db.resolve(*name).unwrap().to_string(), *amount)
        }
        RecipeComponent::ItemStack { .. } => panic!("expected a fluid, found an item"),
    }
}

#[test]
fn null_entries_are_no_alternatives() {
    let list = vec![Some(stack("a", 1)), None, Some(stack("b", 2))];
    let kept = skip_nulls_list(list);
    assert_eq!(kept, vec![stack("a", 1), stack("b", 2)]);
}

#[test]
fn null_filtering_keeps_order_and_handles_the_edges() {
    assert_eq!(skip_nulls_list(Vec::<Option<u8>>::new()), Vec::<u8>::new());
    assert_eq!(skip_nulls_list(vec![None::<u8>, None, None]), Vec::<u8>::new());
    assert_eq!(skip_nulls_list(vec![None, Some(3u8), None, Some(1), Some(2), None]), vec![3, 1, 2]);
    assert_eq!(skip_nulls_list(vec![Some(7u8)]), vec![7]);
}

#[test]
fn a_slot_read_with_nulls_has_only_the_present_alternatives() {
    let mut db = RecipeDatabase::new();
    let stacks = skip_nulls_list(vec![Some(stack("a", 1)), None, Some(stack("b", 1))]);
    let slot = slot_from_items(&mut db, &items(true, stacks));
    assert_eq!(slot.allowed_elements.len(), 2);
}

#[test]
fn non_covariant_recipe_is_staged_once() {
    let mut db = RecipeDatabase::new();
    let doc = document(
        "Crafting",
        "tex/crafting",
        vec![record(
            vec![
                items(true, vec![stack("oak_planks", 4), stack("birch_planks", 4)]),
                items(false, vec![stack("crafting_table", 1)]),
            ],
            vec![],
        )],
    );
    assert!(is_supported_document(&doc));
    import_recipes(&mut db, &doc);
    assert_eq!(db.num_recipes(), 1);
    let recipe = &db.recipes()[0];
    assert_eq!(recipe.inputs.len(), 1);
    assert_eq!(recipe.inputs[0].allowed_elements.len(), 2);
    assert_eq!(recipe.outputs.len(), 1);
    assert_eq!(item_of(&db, &recipe.inputs[0].allowed_elements[0]), ("oak_planks".to_string(), 4));
    assert_eq!(item_of(&db, &recipe.inputs[0].allowed_elements[1]), ("birch_planks".to_string(), 4));
    assert_eq!(item_of(&db, &recipe.outputs[0]), ("crafting_table".to_string(), 1));
}

#[test]
fn covariant_output_expands_into_one_recipe_per_stack() {
    let mut db = RecipeDatabase::new();
    let doc = document(
        "Dyeing",
        "tex/dye",
        vec![record(
            vec![
                items(true, vec![stack("wool", 1), stack("carpet", 1)]),
                items(false, vec![stack("red", 1), stack("green", 2), stack("blue", 3)]),
            ],
            vec![],
        )],
    );
    assert!(is_supported_document(&doc));
    import_recipes(&mut db, &doc);
    assert_eq!(db.num_recipes(), 3);
    let expected = [("red", 1u32), ("green", 2), ("blue", 3)];
    for i in 0..3 {
        let recipe = &db.recipes()[i];
        assert_eq!(recipe.inputs.len(), 1);
        assert_eq!(recipe.inputs[0].allowed_elements.len(), 2);
        assert_eq!(item_of(&db, &recipe.inputs[0].allowed_elements[0]), ("wool".to_string(), 1));
        assert_eq!(item_of(&db, &recipe.inputs[0].allowed_elements[1]), ("carpet".to_string(), 1));
        assert_eq!(recipe.outputs.len(), 1);
        assert_eq!(item_of(&db, &recipe.outputs[0]), (expected[i].0.to_string(), expected[i].1));
        assert_eq!(recipe.inputs, db.recipes()[0].inputs);
    }
}

#[test]
fn covariant_inputs_are_zipped_with_the_outputs() {
    let mut db = RecipeDatabase::new();
    let machine = db.get_or_intern("tex/saw");
    db.add_machine(machine, "Saw".to_string());
    let raw = record(
        vec![
            items(true, vec![stack("oak_log", 1), stack("birch_log", 1)]),
            items(true, vec![stack("saw_blade", 1)]),
            items(false, vec![stack("oak_planks", 6), stack("birch_planks", 6)]),
            items(false, vec![stack("sawdust", 1)]),
            items(true, vec![]),
        ],
        vec![fluids(true, vec![fluid("water", 100), fluid("oil", 10)])],
    );
    assert!(is_expandable(&raw, 2));
    handle_covariant_recipe(&mut db, machine, &raw, 2);
    assert_eq!(db.num_recipes(), 2);
    let logs = ["oak_log", "birch_log"];
    let planks = ["oak_planks", "birch_planks"];
    for i in 0..2 {
        let recipe = &db.recipes()[i];
        assert_eq!(recipe.machine, machine);
        assert_eq!(recipe.inputs.len(), 3);
        assert_eq!(recipe.inputs[0].allowed_elements.len(), 1);
        assert_eq!(item_of(&db, &recipe.inputs[0].allowed_elements[0]), ("saw_blade".to_string(), 1));
        assert_eq!(recipe.inputs[1].allowed_elements.len(), 2);
        assert_eq!(fluid_of(&db, &recipe.inputs[1].allowed_elements[0]), ("water".to_string(), 100));
        assert_eq!(fluid_of(&db, &recipe.inputs[1].allowed_elements[1]), ("oil".to_string(), 10));
        assert_eq!(recipe.inputs[2].allowed_elements.len(), 1);
        assert_eq!(item_of(&db, &recipe.inputs[2].allowed_elements[0]), (logs[i].to_string(), 1));
        assert_eq!(recipe.outputs.len(), 2);
        assert_eq!(item_of(&db, &recipe.outputs[0]), ("sawdust".to_string(), 1));
        assert_eq!(item_of(&db, &recipe.outputs[1]), (planks[i].to_string(), 6));
    }
}

#[test]
fn expansion_for_count_zero_stages_nothing() {
    let mut db = RecipeDatabase::new();
    let machine = db.get_or_intern("tex/m");
    let raw = record(vec![items(true, vec![stack("a", 1)])], vec![]);
    handle_covariant_recipe(&mut db, machine, &raw, 0);
    assert_eq!(db.num_recipes(), 0);
    assert_eq!(db.resolve(SymbolId { index: 1 }), Some("a"));
}

#[test]
fn two_triggers_of_one_size_expand_twice() {
    let mut db = RecipeDatabase::new();
    let doc = document(
        "Sieve",
        "tex/sieve",
        vec![record(
            vec![
                items(false, vec![stack("a", 1), stack("b", 1)]),
                items(false, vec![stack("c", 1), stack("d", 1)]),
            ],
            vec![],
        )],
    );
    assert!(is_supported_document(&doc));
    import_recipes(&mut db, &doc);
    assert_eq!(db.num_recipes(), 4);
    for (i, pair) in [("a", "c"), ("b", "d"), ("a", "c"), ("b", "d")].iter().enumerate() {
        let recipe = &db.recipes()[i];
        assert_eq!(recipe.inputs.len(), 0);
        assert_eq!(recipe.outputs.len(), 2);
        assert_eq!(item_of(&db, &recipe.outputs[0]), (pair.0.to_string(), 1));
        assert_eq!(item_of(&db, &recipe.outputs[1]), (pair.1.to_string(), 1));
    }
}

#[test]
fn fluid_output_with_two_fluids_is_refused() {
    let raw = record(
        vec![items(true, vec![stack("bucket", 1)])],
        vec![fluids(false, vec![fluid("water", 1000), fluid("lava", 1000)])],
    );
    assert!(!has_single_fluid_outputs(&raw));
    assert!(!is_supported(&raw));
    assert!(!is_expandable(&raw, 2));
    assert!(!is_supported_document(&document("Tank", "tex/tank", vec![raw])));
}

#[test]
fn fluid_input_with_two_fluids_is_fine() {
    let raw = record(vec![], vec![fluids(true, vec![fluid("water", 1000), fluid("lava", 1000)])]);
    assert!(has_single_fluid_outputs(&raw));
    assert!(is_supported(&raw));
}

#[test]
fn output_slots_of_two_different_sizes_are_refused() {
    let raw = record(
        vec![
            items(false, vec![stack("a", 1), stack("b", 1)]),
            items(false, vec![stack("c", 1), stack("d", 1), stack("e", 1)]),
        ],
        vec![],
    );
    assert!(!is_supported(&raw));
    assert!(!is_expandable(&raw, 2));
    assert!(!is_expandable(&raw, 3));
}

#[test]
fn empty_slots_are_skipped_everywhere() {
    let raw = record(
        vec![items(true, vec![]), items(false, vec![])],
        vec![fluids(true, vec![]), fluids(false, vec![])],
    );
    assert!(is_supported(&raw));
    let mut db = RecipeDatabase::new();
    let machine = db.get_or_intern("tex/nothing");
    db.add_machine(machine, "Nothing".to_string());
    import_record(&mut db, machine, &raw);
    assert_eq!(db.num_recipes(), 1);
    assert_eq!(db.recipes()[0].inputs.len(), 0);
    assert_eq!(db.recipes()[0].outputs.len(), 0);
    assert_eq!(db.num_symbols(), 1);
}

#[test]
fn furnace_end_to_end() {
    let mut db = RecipeDatabase::new();
    let doc = document(
        "Furnace",
        "textures/gui/container/furnace.png",
        vec![record(
            vec![items(true, vec![stack("ore", 1)]), items(false, vec![stack("ingot", 1)])],
            vec![],
        )],
    );
    import_recipes(&mut db, &doc);
    assert_eq!(db.num_recipes(), 1);
    let recipe = &db.recipes()[0];
    assert_eq!(db.resolve(recipe.machine), Some("textures/gui/container/furnace.png"));
    assert_eq!(db.machine_name(recipe.machine), Some(&"Furnace".to_string()));
    assert_eq!(recipe.inputs.len(), 1);
    assert_eq!(recipe.inputs[0].allowed_elements.len(), 1);
    assert_eq!(item_of(&db, &recipe.inputs[0].allowed_elements[0]), ("ore".to_string(), 1));
    assert_eq!(recipe.outputs.len(), 1);
    assert_eq!(item_of(&db, &recipe.outputs[0]), ("ingot".to_string(), 1));
    let ore = recipe.inputs[0].allowed_elements[0].get_name();
    let ingot = recipe.outputs[0].get_name();
    assert_eq!(db.item_type(ore), Some(ItemType::Item));
    assert_eq!(db.item_type(ingot), Some(ItemType::Item));
    assert_eq!(db.num_symbols(), 3);
}

#[test]
fn fluids_join_inputs_and_outputs_after_the_items() {
    let mut db = RecipeDatabase::new();
    let doc = document(
        "Mixer",
        "tex/mixer",
        vec![record(
            vec![items(true, vec![stack("salt", 2)]), items(false, vec![stack("bottle", 1)])],
            vec![
                fluids(true, vec![fluid("water", 250), fluid("steam", 500)]),
                fluids(false, vec![fluid("brine", 250)]),
            ],
        )],
    );
    import_recipes(&mut db, &doc);
    assert_eq!(db.num_recipes(), 1);
    let recipe = &db.recipes()[0];
    assert_eq!(recipe.inputs.len(), 2);
    assert_eq!(item_of(&db, &recipe.inputs[0].allowed_elements[0]), ("salt".to_string(), 2));
    assert_eq!(fluid_of(&db, &recipe.inputs[1].allowed_elements[0]), ("water".to_string(), 250));
    assert_eq!(fluid_of(&db, &recipe.inputs[1].allowed_elements[1]), ("steam".to_string(), 500));
    assert_eq!(recipe.outputs.len(), 2);
    assert_eq!(item_of(&db, &recipe.outputs[0]), ("bottle".to_string(), 1));
    assert_eq!(fluid_of(&db, &recipe.outputs[1]), ("brine".to_string(), 250));
}

#[test]
fn the_first_kind_met_for_a_name_stays() {
    let mut db = RecipeDatabase::new();
    let doc = document(
        "Barrel",
        "tex/barrel",
        vec![record(
            vec![items(true, vec![stack("water", 1)])],
            vec![fluids(false, vec![fluid("water", 1000)])],
        )],
    );
    import_recipes(&mut db, &doc);
    let water = db.recipes()[0].inputs[0].allowed_elements[0].get_name();
    assert_eq!(db.recipes()[0].outputs[0].get_name(), water);
    assert_eq!(db.item_type(water), Some(ItemType::Item));
}

#[test]
fn symbols_follow_the_order_in_which_names_are_met() {
    let mut db = RecipeDatabase::new();
    let doc = document(
        "Saw",
        "tex/saw",
        vec![record(
            vec![
                items(false, vec![stack("a0", 1), stack("a1", 1)]),
                items(true, vec![stack("b0", 1), stack("b1", 1)]),
                items(true, vec![stack("c0", 1), stack("c1", 1), stack("c2", 1)]),
            ],
            vec![],
        )],
    );
    import_recipes(&mut db, &doc);
    let names: Vec<String> = (0..db.num_symbols())
        .map(|index| db.resolve(SymbolId { index }).unwrap().to_string())
        .collect();
    assert_eq!(names, vec!["tex/saw", "a0", "a1", "c0", "c1", "c2", "b0", "b1"]);
}

#[test]
fn two_documents_of_one_machine_keep_the_first_category() {
    let mut db = RecipeDatabase::new();
    let first = document("Furnace", "tex/furnace", vec![]);
    let second = document("Oven", "tex/furnace", vec![record(
        vec![items(false, vec![stack("bread", 1)])],
        vec![],
    )]);
    import_recipes(&mut db, &first);
    import_recipes(&mut db, &second);
    let machine = db.recipes()[0].machine;
    assert_eq!(machine, SymbolId { index: 0 });
    assert_eq!(db.machine_name(machine), Some(&"Furnace".to_string()));
}

#[test]
fn negative_amounts_wrap_round() {
    let mut db = RecipeDatabase::new();
    let component = RecipeComponent::from_item(&mut db, &stack("odd", -1));
    assert_eq!(component, RecipeComponent::ItemStack { count: 4294967295, name: SymbolId { index: 0 } });
    assert_eq!(component.get_quantity(), -1);
    let other = RecipeComponent::from_fluid(&mut db, &fluid("odd", i32::MIN));
    assert_eq!(other, RecipeComponent::Fluid { amount: 2147483648, name: SymbolId { index: 0 } });
    assert_eq!(other.get_quantity(), i32::MIN);
    assert_eq!(db.item_type(SymbolId { index: 0 }), Some(ItemType::Item));
}

#[test]
fn quantities_come_back_as_the_store_counts_them() {
    let item = RecipeComponent::ItemStack { count: 64, name: SymbolId { index: 3 } };
    let big = RecipeComponent::Fluid { amount: 3000000000, name: SymbolId { index: 4 } };
    assert_eq!(item.get_quantity(), 64);
    assert_eq!(big.get_quantity(), -1294967296);
    assert_eq!(item.get_name(), SymbolId { index: 3 });
    assert_eq!(big.get_name(), SymbolId { index: 4 });
}

#[test]
fn slots_from_fluids_and_items_register_their_kinds() {
    let mut db = RecipeDatabase::new();
    let slot = slot_from_fluids(&mut db, &fluids(true, vec![fluid("water", 5), fluid("lava", 6)]));
    assert_eq!(slot.allowed_elements, vec![
        RecipeComponent::Fluid { amount: 5, name: SymbolId { index: 0 } },
        RecipeComponent::Fluid { amount: 6, name: SymbolId { index: 1 } },
    ]);
    let other = slot_from_items(&mut db, &items(true, vec![stack("lava", 1), stack("rock", 2)]));
    assert_eq!(other.allowed_elements, vec![
        RecipeComponent::ItemStack { count: 1, name: SymbolId { index: 1 } },
        RecipeComponent::ItemStack { count: 2, name: SymbolId { index: 2 } },
    ]);
    assert_eq!(db.item_type(SymbolId { index: 1 }), Some(ItemType::Fluid));
    assert_eq!(db.item_type(SymbolId { index: 2 }), Some(ItemType::Item));
    assert_eq!(CraftingSlot::new().allowed_elements.len(), 0);
}

#[test]
fn tooltips_name_items_first_writer_wins() {
    let mut db = RecipeDatabase::new();
    let ore = db.get_or_intern("ore");
    db.associate_name(ore, "Ore".to_string());
    import_tooltips(&mut db, vec![
        ("ingot".to_string(), "Ingot".to_string()),
        ("ore".to_string(), "Other Ore".to_string()),
        ("ingot".to_string(), "Bar".to_string()),
    ]);
    assert_eq!(db.num_symbols(), 2);
    assert_eq!(db.item_name(ore), Some(&"Ore".to_string()));
    assert_eq!(db.item_name(SymbolId { index: 1 }), Some(&"Ingot".to_string()));
    assert_eq!(db.resolve(SymbolId { index: 1 }), Some("ingot"));
}

#[test]
fn files_are_told_apart_by_name() {
    assert_eq!(classify_file("tooltipMap.json"), ExportFile::Tooltips);
    assert_eq!(classify_file("lookupMap.json"), ExportFile::Lookup);
    assert_eq!(classify_file("minecraft_crafting.json"), ExportFile::Recipes);
    assert_eq!(classify_file("TooltipMap.json"), ExportFile::Recipes);
    assert_eq!(classify_file(""), ExportFile::Recipes);
}
