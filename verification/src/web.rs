//! Types for use when communicating between the web server and frontend
use vstd::prelude::*;
use crate::sql::ItemType;

verus! {

/// Specifies an input or output item
#[derive(Debug, Clone, PartialEq, Eq)]
pub struct ItemSpec {
    /// Internal ID # for the item.
    pub item_id: i32,
    /// Human-readable name
    pub item_name: String,
    /// Minecraft string ID for the item
    pub minecraft_id: String,
    /// What kind of item is it (item stack, fluid, etc.)
    pub ty: ItemType,
    /// The amount of the item
    pub quantity: i32,
}

/// An input item slot
#[derive(Debug, Clone, PartialEq, Eq)]
pub struct InputSlot {
    pub items: Vec<ItemSpec>,
}

/// The data required to complete a PartialRecipe
#[derive(Debug, Clone, PartialEq, Eq)]
pub struct Recipe {
    /// The inputs to the recipe
    pub input_slots: Vec<InputSlot>,
    /// The things produced by this recipe
    pub outputs: Vec<ItemSpec>,
}

/// A partial recipe. For when we only care about the fact that a particular
/// machine can make a given thing.
#[derive(Debug, Clone, PartialEq, Eq)]
pub struct PartialRecipe {
    pub machine_name: String,
    pub machine_id: i32,
    pub recipe_id: i32,
}

/// What an item specification says.
pub struct ItemSpecView {
    pub item_id: i32,
    pub item_name: Seq<char>,
    pub minecraft_id: Seq<char>,
    pub ty: ItemType,
    pub quantity: i32,
}

impl View for ItemSpec {
    type V = ItemSpecView;

    open spec fn view(&self) -> ItemSpecView {
        ItemSpecView {
            item_id: self.item_id,
            item_name: self.item_name@,
            minecraft_id: self.minecraft_id@,
            ty: self.ty,
            quantity: self.quantity,
        }
    }
}

impl View for InputSlot {
    type V = Seq<ItemSpecView>;

    open spec fn view(&self) -> Seq<ItemSpecView> {
        self.items@.map_values(|item: ItemSpec| item@)
    }
}

/// What a crafting-component row says: the number of its slot and the item
/// in it.
pub struct SlotRow {
    pub slot: i32,
    pub item: ItemSpecView,
}

/// What a list of crafting-component rows says.
pub open spec fn row_views(rows: Seq<(i32, ItemSpec)>) -> Seq<SlotRow> {
    rows.map_values(|row: (i32, ItemSpec)| SlotRow { slot: row.0, item: row.1@ })
}

/// The slot numbers among `rows`, each once, in the order in which they
/// first occur.
pub open spec fn slot_ids(rows: Seq<SlotRow>) -> Seq<i32>
    decreases rows.len(),
{
    if rows.len() == 0 {
        Seq::empty()
    } else {
        let earlier = slot_ids(rows.drop_last());
        if earlier.contains(rows.last().slot) {
            earlier
        } else {
            earlier.push(rows.last().slot)
        }
    }
}

/// The items of the rows of one slot, in the order of the rows.
pub open spec fn slot_members(rows: Seq<SlotRow>, slot: i32) -> Seq<ItemSpecView> {
    rows.filter(|row: SlotRow| row.slot == slot).map_values(
        |row: SlotRow| row.item,
    )
}

/// The input slots that a list of rows stands for: one slot for each slot
/// number, in the order in which the numbers first occur, each with the
/// items of its rows.
pub open spec fn grouped(rows: Seq<SlotRow>) -> Seq<Seq<ItemSpecView>> {
    slot_ids(rows).map_values(|slot: i32| slot_members(rows, slot))
}

/// One more row adds its item to its slot, and to no other.
pub proof fn lemma_slot_members_push(
    rows: Seq<SlotRow>,
    next: SlotRow,
    slot: i32,
)
    ensures
        slot_members(rows.push(next), slot) == if next.slot == slot {
            slot_members(rows, slot).push(next.item)
        } else {
            slot_members(rows, slot)
        },
{
    let pred = |row: SlotRow| row.slot == slot;
    let item = |row: SlotRow| row.item;
    rows.lemma_filter_push(next, pred);
    assert(slot_members(rows.push(next), slot) == rows.push(next).filter(pred).map_values(item));
    assert(slot_members(rows, slot) == rows.filter(pred).map_values(item));
    if next.slot == slot {
        assert(pred(next));
        assert(rows.filter(pred).push(next).map_values(item) =~= rows.filter(pred).map_values(
            item,
        ).push(next.item));
    } else {
        assert(!pred(next));
    }
}

/// A slot number that no row carries has no members.
pub proof fn lemma_slot_members_none(rows: Seq<SlotRow>, slot: i32)
    requires
        !slot_ids(rows).contains(slot),
    ensures
        slot_members(rows, slot) == Seq::<ItemSpecView>::empty(),
    decreases rows.len(),
{
    let pred = |row: SlotRow| row.slot == slot;
    if rows.len() == 0 {
        assert(rows.filter(pred).len() <= rows.len()) by {
            rows.lemma_filter_len(pred);
        }
        assert(slot_members(rows, slot) =~= Seq::<ItemSpecView>::empty());
    } else {
        let earlier = slot_ids(rows.drop_last());
        if earlier.contains(rows.last().slot) {
        } else {
            assert(earlier.push(rows.last().slot).last() == rows.last().slot);
            assert forall|i: int| 0 <= i < earlier.len() implies earlier[i] != slot by {
                assert(earlier.push(rows.last().slot)[i] == earlier[i]);
            }
        }
        assert(rows.last().slot != slot) by {
            if rows.last().slot == slot {
                if earlier.contains(slot) {
                } else {
                    assert(earlier.push(slot)[earlier.len() as int] == slot);
                }
            }
        }
        assert(!earlier.contains(slot)) by {
            if earlier.contains(slot) {
                let i = earlier.index_of(slot);
                assert(slot_ids(rows)[i] == slot);
            }
        }
        lemma_slot_members_none(rows.drop_last(), slot);
        assert(rows.drop_last().push(rows.last()) =~= rows);
        lemma_slot_members_push(rows.drop_last(), rows.last(), slot);
    }
}

/// Gathers the rows of a recipe's crafting components into its input slots.
pub fn group_input_slots(rows: Vec<(i32, ItemSpec)>) -> (slots: Vec<InputSlot>)
    ensures
        slots@.map_values(|slot: InputSlot| slot@) == grouped(row_views(rows@)),
{
    let ghost all = row_views(rows@);
    let mut ids: Vec<i32> = Vec::new();
    let mut slots: Vec<InputSlot> = Vec::new();
    proof {
        assert(all.take(0) =~= Seq::empty());
        assert(slots@.map_values(|slot: InputSlot| slot@) =~= grouped(all.take(0)));
    }
    for row in iter: rows
        invariant
            iter.seq() == rows@,
            all == row_views(rows@),
            ids@ == slot_ids(all.take(iter.index())),
            slots@.map_values(|slot: InputSlot| slot@) == grouped(all.take(iter.index())),
    {
        let ghost done = all.take(iter.index());
        let ghost entry = SlotRow { slot: row.0, item: row.1@ };
        proof {
            assert(all[iter.index()] == entry);
            assert(all.take(iter.index() + 1) =~= done.push(entry));
            assert(done.push(entry).drop_last() =~= done);
            assert(slots@.map_values(|slot: InputSlot| slot@).len() == grouped(done).len());
            assert(slots@.len() == ids@.len());
        }
        let (slot_id, item) = row;
        let mut g: usize = 0;
        while g < ids.len() && ids[g] != slot_id
            invariant
                g <= ids.len(),
                forall|k: int| 0 <= k < g ==> ids@[k] != slot_id,
            decreases ids.len() - g,
        {
            g += 1;
        }
        let ghost groups_before = slots@.map_values(|slot: InputSlot| slot@);
        if g < ids.len() {
            let ghost members_before = slots@[g as int]@;
            slots[g].items.push(item);
            proof {
                assert(ids@.contains(slot_id));
                assert(slots@[g as int]@ =~= members_before.push(item@));
                let groups = slots@.map_values(|slot: InputSlot| slot@);
                assert forall|k: int| 0 <= k < ids@.len() implies #[trigger] groups[k]
                    == slot_members(done.push(entry), ids@[k]) by {
                    lemma_slot_members_push(done, entry, ids@[k]);
                    assert(groups_before[k] == slot_members(done, ids@[k]));
                    if k != g {
                        assert(ids@[k] != slot_id) by {
                            lemma_slot_ids_distinct(done);
                        }
                    }
                }
                assert(slots@.map_values(|slot: InputSlot| slot@) =~= grouped(done.push(entry)));
            }
        } else {
            let mut items: Vec<ItemSpec> = Vec::new();
            items.push(item);
            ids.push(slot_id);
            slots.push(InputSlot { items });
            proof {
                assert(!slot_ids(done).contains(slot_id));
                lemma_slot_members_none(done, slot_id);
                let groups = slots@.map_values(|slot: InputSlot| slot@);
                assert forall|k: int| 0 <= k < ids@.len() implies #[trigger] groups[k]
                    == slot_members(done.push(entry), ids@[k]) by {
                    lemma_slot_members_push(done, entry, ids@[k]);
                    if k < ids@.len() - 1 {
                        assert(groups_before[k] == slot_members(done, ids@[k]));
                        assert(slot_ids(done)[k] == ids@[k]);
                        assert(slot_ids(done).contains(ids@[k]));
                    } else {
                        assert(slots@[k]@ =~= seq![item@]);
                        assert(Seq::<ItemSpecView>::empty().push(item@) =~= seq![item@]);
                    }
                }
                assert(slots@.map_values(|slot: InputSlot| slot@) =~= grouped(done.push(entry)));
            }
        }
    }
    proof {
        assert(all.take(all.len() as int) =~= all);
    }
    slots
}

/// No slot number is listed twice.
pub proof fn lemma_slot_ids_distinct(rows: Seq<SlotRow>)
    ensures
        slot_ids(rows).no_duplicates(),
    decreases rows.len(),
{
    if rows.len() > 0 {
        lemma_slot_ids_distinct(rows.drop_last());
    }
}

} // verus!
