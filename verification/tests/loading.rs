use mccraft::importer::import_recipes;
use mccraft::interner::SymbolId;
use mccraft::json::recipe::{
    BackgroundImage, CraftingInstance, Fluid, IngredientFluid, IngredientItem, ItemStack,
    Recipe as RawRecipe,
};
use mccraft::loader::{
    batches, chunks, component_rows, disable_recipe_fks, enable_recipe_fks, first_missing,
    first_unnumbered_machine, input_slot_rows, item_batches, output_rows, progress_due,
    recipe_chunks, recipe_rows, StoreIds, ITEM_BATCH_SIZE, RECIPE_CHUNK_SIZE,
};
use mccraft::recipe_db::RecipeDatabase;
use mccraft::sql::{
    ItemType, NewCraftingComponent, NewInputSlot, NewItem, NewMachine, NewOutput, NewRecipe,
};
use mccraft::types::{CraftingSlot, Recipe, RecipeComponent};
use mccraft::web::{group_input_slots, InputSlot, ItemSpec};

fn furnace_db() -> RecipeDatabase {
    let mut db = RecipeDatabase::new();
    let doc = CraftingInstance {
        category: "Furnace".to_string(),
        bg: BackgroundImage { width: 1, height: 1, tex: "tex/furnace".to_string() },
        recipes: vec![RawRecipe {
            ingredient_items: vec![
                IngredientItem {
                    p: 0,
                    is_input: true,
                    stacks: vec![ItemStack { amount: 1, ty: "ore".to_string() }],
                },
                IngredientItem {
                    p: 0,
                    is_input: false,
                    stacks: vec![ItemStack { amount: 2, ty: "ingot".to_string() }],
                },
            ],
            ingredient_fluids: vec![IngredientFluid {
                p: 0,
                is_input: true,
                fluids: vec![Fluid { amount: 100, ty: "lava".to_string() }],
            }],
        }],
    };
    import_recipes(&mut db, &doc);
    db
}

fn item(index: usize, count: u32) -> RecipeComponent {
    RecipeComponent::ItemStack { count, name: SymbolId { index } }
}

#[test]
fn store_ids_keep_the_first_answer() {
    let mut ids = StoreIds::new();
    let ore = SymbolId { index: 4 };
    assert_eq!(ids.get(ore), None);
    assert_eq!(ids.record(ore, &vec![17, 18]), 17);
    assert_eq!(ids.get(ore), Some(17));
    assert_eq!(ids.record(ore, &vec![99]), 17);
    assert_eq!(ids.get(ore), Some(17));
    assert_eq!(ids.record_unique(SymbolId { index: 5 }, &vec![3]), 3);
    assert_eq!(ids.get(SymbolId { index: 5 }), Some(3));
    assert_eq!(ids.get(SymbolId { index: 6 }), None);
}

#[test]
fn items_are_ready_when_their_symbols_resolve() {
    let mut db = furnace_db();
    assert!(db.items_ready());
    db.associate_name(SymbolId { index: 1 }, "Ore".to_string());
    assert!(db.items_ready());
    db.associate_type(SymbolId { index: 40 }, ItemType::Item);
    db.associate_name(SymbolId { index: 40 }, "Ghost".to_string());
    assert!(!db.items_ready());
}

#[test]
fn item_rows_hold_every_typed_symbol_once() {
    let mut db = furnace_db();
    db.associate_name(SymbolId { index: 1 }, "Ore".to_string());
    db.associate_name(SymbolId { index: 2 }, "Ingot".to_string());
    db.associate_name(SymbolId { index: 3 }, "Lava".to_string());
    let mut rows = db.item_rows();
    rows.sort_by(|a, b| a.minecraft_id.cmp(b.minecraft_id));
    assert_eq!(rows, vec![
        NewItem { human_name: "Ingot", minecraft_id: "ingot", ty: ItemType::Item },
        NewItem { human_name: "Lava", minecraft_id: "lava", ty: ItemType::Fluid },
        NewItem { human_name: "Ore", minecraft_id: "ore", ty: ItemType::Item },
    ]);
    let cut = item_batches(&db);
    assert_eq!(cut.len(), 1);
    assert_eq!(cut[0].len(), 3);
}

#[test]
fn an_item_without_a_name_still_gets_its_row() {
    let mut db = furnace_db();
    db.associate_name(SymbolId { index: 2 }, "Ingot".to_string());
    let mut rows = db.item_rows();
    rows.sort_by(|a, b| a.minecraft_id.cmp(b.minecraft_id));
    assert_eq!(rows, vec![
        NewItem { human_name: "Ingot", minecraft_id: "ingot", ty: ItemType::Item },
        NewItem { human_name: "lava", minecraft_id: "lava", ty: ItemType::Fluid },
        NewItem { human_name: "ore", minecraft_id: "ore", ty: ItemType::Item },
    ]);
    let cut = item_batches(&db);
    assert_eq!(cut.len(), 1);
    assert_eq!(cut[0].len(), 3);
}

#[test]
fn a_name_for_a_symbol_without_a_kind_makes_no_row() {
    let mut db = furnace_db();
    let extra = db.get_or_intern("bedrock");
    db.associate_name(extra, "Bedrock".to_string());
    assert!(db.items_ready());
    assert_eq!(db.item_rows().len(), 3);
}

#[test]
fn machine_rows_hold_every_machine_once() {
    let mut db = furnace_db();
    assert!(db.machines_ready());
    assert_eq!(db.machine_rows(), vec![NewMachine { human_name: "Furnace", minecraft_id: "tex/furnace" }]);
    assert_eq!(db.machine_symbols(), vec![SymbolId { index: 0 }]);
    db.add_machine(SymbolId { index: 77 }, "Nowhere".to_string());
    assert!(!db.machines_ready());
    let mut symbols = db.machine_symbols();
    symbols.sort_by_key(|s| s.index);
    assert_eq!(symbols, vec![SymbolId { index: 0 }, SymbolId { index: 77 }]);
}

#[test]
fn an_empty_database_writes_one_empty_item_batch() {
    let db = RecipeDatabase::new();
    assert!(db.items_ready());
    assert!(db.machines_ready());
    assert_eq!(db.item_rows().len(), 0);
    assert_eq!(db.machine_rows().len(), 0);
    let cut = item_batches(&db);
    assert_eq!(cut.len(), 1);
    assert_eq!(cut[0].len(), 0);
    assert_eq!(recipe_chunks(&db, &StoreIds::new()).len(), 0);
}

#[test]
fn batches_close_when_full_and_end_with_the_rest() {
    assert_eq!(batches(vec![1, 2, 3, 4, 5, 6, 7], 3), vec![vec![1, 2, 3], vec![4, 5, 6], vec![7]]);
    assert_eq!(batches(vec![1, 2, 3, 4], 2), vec![vec![1, 2], vec![3, 4], vec![]]);
    assert_eq!(batches(Vec::<u8>::new(), 4), vec![Vec::<u8>::new()]);
    assert_eq!(batches(vec![9], 1), vec![vec![9], vec![]]);
    assert_eq!(batches(vec![1, 2], 5), vec![vec![1, 2]]);
}

#[test]
fn item_batches_hold_five_thousand_rows() {
    assert_eq!(ITEM_BATCH_SIZE, 5000);
    let rows: Vec<u32> = (0..10001).collect();
    let cut = batches(rows, ITEM_BATCH_SIZE);
    assert_eq!(cut.len(), 3);
    assert_eq!(cut[0].len(), 5000);
    assert_eq!(cut[1].len(), 5000);
    assert_eq!(cut[2], vec![10000]);
    let even: Vec<u32> = (0..10000).collect();
    let cut = batches(even, ITEM_BATCH_SIZE);
    assert_eq!(cut.len(), 3);
    assert_eq!(cut[2].len(), 0);
}

#[test]
fn chunks_are_never_empty() {
    assert_eq!(chunks(vec![1, 2, 3, 4, 5, 6, 7], 3), vec![vec![1, 2, 3], vec![4, 5, 6], vec![7]]);
    assert_eq!(chunks(vec![1, 2, 3, 4], 2), vec![vec![1, 2], vec![3, 4]]);
    assert_eq!(chunks(Vec::<u8>::new(), 4), Vec::<Vec<u8>>::new());
    assert_eq!(chunks(vec![1, 2], 5), vec![vec![1, 2]]);
    assert_eq!(RECIPE_CHUNK_SIZE, 8192);
    let cut = chunks((0..8193).collect::<Vec<u32>>(), RECIPE_CHUNK_SIZE);
    assert_eq!(cut.len(), 2);
    assert_eq!(cut[0].len(), 8192);
    assert_eq!(cut[1], vec![8192]);
}

#[test]
fn recipe_rows_carry_the_store_number_of_the_machine() {
    let db = furnace_db();
    let mut machines = StoreIds::new();
    assert_eq!(first_unnumbered_machine(&db, &machines), Some(SymbolId { index: 0 }));
    machines.record_unique(SymbolId { index: 0 }, &vec![12]);
    assert_eq!(first_unnumbered_machine(&db, &machines), None);
    assert_eq!(recipe_rows(&db, &machines), vec![NewRecipe { machine: 12 }]);
    assert_eq!(recipe_chunks(&db, &machines), vec![vec![NewRecipe { machine: 12 }]]);
}

#[test]
fn slot_and_output_rows_follow_the_recipe() {
    let recipe = Recipe {
        machine: SymbolId { index: 0 },
        inputs: vec![
            CraftingSlot { allowed_elements: vec![item(1, 3), item(2, 4)] },
            CraftingSlot { allowed_elements: vec![] },
            CraftingSlot {
                allowed_elements: vec![RecipeComponent::Fluid {
                    amount: 4000000000,
                    name: SymbolId { index: 3 },
                }],
            },
        ],
        outputs: vec![item(2, 1), item(1, 9)],
    };
    assert_eq!(input_slot_rows(&recipe, 7), vec![NewInputSlot { for_recipe: 7 }; 3]);
    let mut items = StoreIds::new();
    assert_eq!(first_missing(&recipe.inputs[0].allowed_elements, &items), Some(SymbolId { index: 1 }));
    items.record(SymbolId { index: 1 }, &vec![101]);
    assert_eq!(first_missing(&recipe.inputs[0].allowed_elements, &items), Some(SymbolId { index: 2 }));
    assert_eq!(first_missing(&recipe.outputs, &items), Some(SymbolId { index: 2 }));
    items.record(SymbolId { index: 2 }, &vec![102]);
    items.record(SymbolId { index: 3 }, &vec![103]);
    assert_eq!(first_missing(&recipe.inputs[0].allowed_elements, &items), None);
    assert_eq!(first_missing(&recipe.inputs[1].allowed_elements, &items), None);
    assert_eq!(component_rows(&recipe.inputs[0], 50, &items), vec![
        NewCraftingComponent { crafting_slot: 50, quantity: 3, item: 101 },
        NewCraftingComponent { crafting_slot: 50, quantity: 4, item: 102 },
    ]);
    assert_eq!(component_rows(&recipe.inputs[1], 51, &items), vec![]);
    assert_eq!(component_rows(&recipe.inputs[2], 52, &items), vec![
        NewCraftingComponent { crafting_slot: 52, quantity: -294967296, item: 103 },
    ]);
    assert_eq!(output_rows(&recipe, 7, &items), vec![
        NewOutput { recipe: 7, quantity: 1, item: 102 },
        NewOutput { recipe: 7, quantity: 9, item: 101 },
    ]);
}

#[test]
fn progress_is_reported_every_hundredth_part() {
    assert!(progress_due(0, 100));
    assert!(progress_due(1, 100));
    assert!(progress_due(0, 250));
    assert!(!progress_due(1, 250));
    assert!(progress_due(2, 250));
    assert!(progress_due(4, 299));
    assert!(!progress_due(5, 299));
    assert!(progress_due(30, 1000));
    assert!(!progress_due(35, 1000));
}

#[test]
fn a_small_load_reports_every_recipe() {
    assert!(progress_due(0, 1));
    for total in [0usize, 1, 2, 50, 99] {
        for i in 0..100 {
            assert!(progress_due(i, total));
        }
    }
    assert!(progress_due(usize::MAX, 99));
    assert!(progress_due(7, 199));
    assert!(!progress_due(7, 200));
    assert!(progress_due(8, 200));
}

#[test]
fn constraints_are_dropped_before_and_added_after() {
    let dropped = disable_recipe_fks();
    let added = enable_recipe_fks();
    assert_eq!(dropped.len(), 8);
    assert_eq!(added.len(), 8);
    assert_eq!(dropped[0], "ALTER TABLE mccraft.input_slots DROP CONSTRAINT input_slots_for_recipe_fkey");
    assert_eq!(dropped[4], "ALTER TABLE mccraft.outputs DROP CONSTRAINT outputs_recipe_fkey");
    assert_eq!(dropped[5], "DROP INDEX crafting_component_item");
    assert_eq!(dropped[7], "DROP INDEX output_item");
    assert_eq!(added[0], "ALTER TABLE mccraft.input_slots ADD CONSTRAINT input_slots_for_recipe_fkey FOREIGN KEY (for_recipe) REFERENCES mccraft.recipes(id)\n");
    assert_eq!(added[3], "ALTER TABLE mccraft.outputs ADD CONSTRAINT outputs_item_fkey FOREIGN KEY (item) REFERENCES mccraft.items(id)");
    assert_eq!(added[7], "CREATE INDEX output_item ON outputs USING hash (item)");
    for statement in dropped.iter().take(5) {
        assert!(statement.contains("DROP CONSTRAINT"));
    }
    for statement in added.iter().take(5) {
        assert!(statement.contains("ADD CONSTRAINT"));
    }
}

fn spec(item_id: i32, name: &str, quantity: i32) -> ItemSpec {
    ItemSpec {
        item_id,
        item_name: name.to_string(),
        minecraft_id: format!("mc:{}", name),
        ty: ItemType::Item,
        quantity,
    }
}

#[test]
fn rows_are_grouped_by_slot_in_order_of_first_appearance() {
    let rows = vec![
        (9, spec(1, "oak", 1)),
        (4, spec(2, "iron", 2)),
        (9, spec(3, "birch", 1)),
        (7, spec(4, "coal", 8)),
        (4, spec(5, "gold", 2)),
        (9, spec(1, "oak", 5)),
    ];
    assert_eq!(group_input_slots(rows), vec![
        InputSlot { items: vec![spec(1, "oak", 1), spec(3, "birch", 1), spec(1, "oak", 5)] },
        InputSlot { items: vec![spec(2, "iron", 2), spec(5, "gold", 2)] },
        InputSlot { items: vec![spec(4, "coal", 8)] },
    ]);
}

#[test]
fn grouping_nothing_gives_no_slot() {
    assert_eq!(group_input_slots(vec![]), Vec::<InputSlot>::new());
    assert_eq!(group_input_slots(vec![(1, spec(1, "a", 1))]), vec![InputSlot { items: vec![spec(1, "a", 1)] }]);
}
