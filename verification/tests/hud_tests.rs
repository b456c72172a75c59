use bozz_torio::hud::{
    carry_label, contract_label, credits_label, objective_label, pause_label, progress_label,
    selection_buttons, tool_label, toolbar_label, Selection,
};
use bozz_torio::runtime::Tool;
use bozz_torio::sim::{Direction, Game, Item, Kind};

#[test]
fn contract_progress_and_credits_read_out_the_factory() {
    let mut game = Game::new();
    assert_eq!(contract_label(&game), "CONTRACT 01 · IRON INGOT");
    assert_eq!(progress_label(&game), "0 / 8 DELIVERED");
    assert_eq!(credits_label(&game), "CREDITS  ¤4");
    assert_eq!(
        objective_label(&game),
        "Deliver 8 × Iron ingot to the Hub.\nPlace Miner on ore, Furnace beside it, then Conveyor to Hub."
    );
    game.order_index = 11;
    game.order_progress = 30;
    assert_eq!(contract_label(&game), "CONTRACT 12 · GEAR");
    assert_eq!(progress_label(&game), "30 / 32 DELIVERED");
    assert_eq!(
        objective_label(&game),
        "Deliver 2 × Gear to the Hub.\nComplete this contract to advance and unlock the next upgrade."
    );
    game.order_progress = 40;
    assert!(objective_label(&game).starts_with("Deliver 0 × Gear"));
    assert_eq!(pause_label(true), "RESUME");
    assert_eq!(pause_label(false), "PAUSE");
}

#[test]
fn tool_inventory_and_toolbar_labels() {
    let game = Game::new();
    assert_eq!(tool_label(Tool::Build(Kind::Belt), Direction::South), "PLACE CONVEYOR S");
    assert_eq!(tool_label(Tool::Carry(Item::CopperOre), Direction::East), "CARRY COPPER ORE");
    assert_eq!(tool_label(Tool::Inspect, Direction::East), "INSPECT");
    assert_eq!(carry_label(&game, Item::IronOre), "Iron ore  ×4");
    assert_eq!(toolbar_label(&game, Kind::Belt), "4\nConveyor\n×24");
}

#[test]
fn selected_tile_buttons_follow_its_building() {
    let mut game = Game::new();
    let none = Selection { rotate: false, recover: false, recipe: false, pick_up: false };
    assert_eq!(selection_buttons(&game, 0, 0), none);
    assert_eq!(selection_buttons(&game, 18, 7), none);
    game.place(10, 6, Kind::Assembler, Direction::East).unwrap();
    assert_eq!(
        selection_buttons(&game, 10, 6),
        Selection { rotate: true, recover: true, recipe: true, pick_up: false }
    );
    game.tiles[6 * 22 + 10].building.as_mut().unwrap().output = Some(Item::Gear);
    assert!(selection_buttons(&game, 10, 6).pick_up);
}
