use bitcraft_game::inventory::InventoryState;
use bitcraft_game::item_stack::{ItemStack, ItemType, Pocket};
use bitcraft_game::tool_wear::ToolWear;

fn tool(id: i32, durability: Option<i32>) -> ItemStack {
    ItemStack { item_id: id, item_type: ItemType::Item, quantity: 1, durability }
}

fn toolbelt(contents: Vec<Option<ItemStack>>) -> InventoryState {
    InventoryState {
        entity_id: 3,
        pockets: contents.into_iter().map(|c| Pocket { volume: 6000, contents: c, locked: true }).collect(),
        inventory_index: 1,
        cargo_index: 10,
        owner_entity_id: 4,
        player_owner_entity_id: 4,
    }
}

#[test]
fn wearing_a_tool_takes_durability_from_its_pocket() {
    let mut belt = toolbelt(vec![Some(tool(100, Some(50))), Some(tool(200, Some(10)))]);
    let r = belt.wear_tool(2, 4);
    assert_eq!(r, ToolWear::Worn);
    assert_eq!(belt.pockets[1].contents, Some(tool(200, Some(6))));
    assert_eq!(belt.pockets[0].contents, Some(tool(100, Some(50))));
    assert!(belt.pockets[1].locked);
}

#[test]
fn a_tool_wears_out_at_zero_durability() {
    let mut belt = toolbelt(vec![Some(tool(100, Some(3)))]);
    assert_eq!(belt.wear_tool(1, 3), ToolWear::WornOut { item_id: 100 });
    assert_eq!(belt.pockets[0].contents, Some(tool(100, Some(0))));
    let mut belt = toolbelt(vec![Some(tool(100, Some(3)))]);
    assert_eq!(belt.wear_tool(1, 5), ToolWear::WornOut { item_id: 100 });
    assert_eq!(belt.pockets[0].contents, Some(tool(100, Some(-2))));
}

#[test]
fn wearing_leaves_a_belt_without_that_tool_alone() {
    let mut belt = toolbelt(vec![None, Some(tool(200, None))]);
    assert_eq!(belt.wear_tool(1, 3), ToolWear::Unchanged);
    assert_eq!(belt.wear_tool(2, 3), ToolWear::Unchanged);
    assert_eq!(belt.wear_tool(3, 3), ToolWear::Unchanged);
    assert_eq!(belt.wear_tool(0, 3), ToolWear::Unchanged);
    assert_eq!(belt.wear_tool(-4, 3), ToolWear::Unchanged);
    assert_eq!(belt.pockets[0].contents, None);
    assert_eq!(belt.pockets[1].contents, Some(tool(200, None)));
}

#[test]
fn a_worn_out_tool_is_destroyed_replaced_or_sent_to_the_bag() {
    let mut belt = toolbelt(vec![Some(tool(100, Some(0)))]);
    assert_eq!(belt.settle_worn_out_tool(1, None, false), None);
    assert_eq!(belt.pockets[0].contents, None);

    let mut belt = toolbelt(vec![Some(tool(100, Some(0)))]);
    assert_eq!(belt.settle_worn_out_tool(1, Some(tool(101, Some(20))), true), None);
    assert_eq!(belt.pockets[0].contents, Some(tool(101, Some(20))));

    let mut belt = toolbelt(vec![Some(tool(100, Some(0)))]);
    assert_eq!(belt.settle_worn_out_tool(1, Some(tool(300, None)), false), Some(tool(300, None)));
    assert_eq!(belt.pockets[0].contents, None);
    assert!(belt.pockets[0].locked);
}
