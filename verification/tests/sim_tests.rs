use bozz_torio::sim::{Building, Direction, Game, Item, Kind, Recipe, Tile, HEIGHT, WIDTH};

#[test]
fn starter_inventory_can_build_and_complete_first_automated_order() {
    let mut game = Game::new();
    assert_eq!(game.buildings, [2, 2, 2, 24, 2]);
    game.place(4, 7, Kind::Miner, Direction::East).unwrap();
    game.place(5, 7, Kind::Furnace, Direction::East).unwrap();
    for x in 6..18 {
        game.place(x, 7, Kind::Belt, Direction::East).unwrap();
    }
    for _ in 0..400 {
        game.tick();
    }
    assert!(game.order_index >= 1);
    assert!(game.delivered[Item::IronBar.index()] >= 8);
    assert!(game.credits >= 20);
}

#[test]
fn assembler_recipes_and_inventory_recovery_are_real_resources() {
    let mut game = Game::new();
    game.place(10, 6, Kind::Assembler, Direction::East).unwrap();
    game.stock[Item::IronBar.index()] = 3;
    game.inject(10, 6, Item::IronBar).unwrap();
    game.inject(10, 6, Item::IronBar).unwrap();
    for _ in 0..5 {
        game.tick();
    }
    assert_eq!(
        game.tiles[6 * WIDTH + 10].building.as_ref().unwrap().output,
        Some(Item::Gear)
    );
    game.take_output(10, 6).unwrap();
    assert_eq!(game.stock[Item::Gear.index()], 1);
    game.set_recipe(10, 6).unwrap();
    game.stock[Item::CopperBar.index()] = 1;
    game.inject(10, 6, Item::IronBar).unwrap();
    game.inject(10, 6, Item::CopperBar).unwrap();
    for _ in 0..5 {
        game.tick();
    }
    assert_eq!(
        game.tiles[6 * WIDTH + 10].building.as_ref().unwrap().output,
        Some(Item::Circuit)
    );
    game.remove(10, 6).unwrap();
    assert_eq!(game.stock[Item::Circuit.index()], 1);
    assert_eq!(game.buildings[Kind::Assembler.index()], 2);
}

#[test]
fn new_factory_has_deposits_hub_and_starter_inventory() {
    let game = Game::new();
    assert_eq!(game.tiles.len(), WIDTH * HEIGHT);
    assert_eq!(game.terrain.len(), WIDTH * HEIGHT);
    assert_eq!(game.hub, [18, 7]);
    assert_eq!(game.tiles[7 * WIDTH + 4].deposit, Some(Item::IronOre));
    assert_eq!(game.tiles[3 * WIDTH + 5].deposit, Some(Item::IronOre));
    assert_eq!(game.tiles[11 * WIDTH + 4].deposit, Some(Item::CopperOre));
    assert_eq!(game.tiles[12 * WIDTH + 8].deposit, Some(Item::CopperOre));
    assert_eq!(game.tiles[0].deposit, None);
    let hub = game.tiles[7 * WIDTH + 18].building.as_ref().unwrap();
    assert_eq!(hub.kind, Kind::Hub);
    assert_eq!(hub.direction, Direction::West);
    assert_eq!(game.stock, [4, 4, 0, 0, 0, 0]);
    assert_eq!(game.credits, 4);
    assert_eq!(game.first_order_amount, 8);
    assert_eq!(game.first_order_reward, 16);
    assert_eq!(game.terrain[0], 14);
    assert_eq!(game.terrain[1], 15);
    assert_eq!(game.terrain[WIDTH], 15);
    assert_eq!(
        game.notice,
        "Place a miner on the iron deposit, then connect it to a furnace."
    );
    assert_eq!(Game::default().credits, 4);
    assert_eq!(bozz_torio::sim::default_terrain(), game.terrain);
    let tile = Tile::default();
    assert!(tile.deposit.is_none() && tile.building.is_none());
}

#[test]
fn grid_index_maps_cells_and_rejects_outside() {
    assert_eq!(Game::index(0, 0), Some(0));
    assert_eq!(Game::index(21, 14), Some(329));
    assert_eq!(Game::index(4, 7), Some(158));
    assert_eq!(Game::index(22, 0), None);
    assert_eq!(Game::index(0, 15), None);
}

#[test]
fn contracts_follow_the_published_schedule() {
    let mut game = Game::new();
    let first = game.order();
    assert_eq!((first.item, first.amount, first.reward, first.bonus_belts), (Item::IronBar, 8, 16, 8));
    game.order_index = 1;
    let o = game.order();
    assert_eq!((o.item, o.amount, o.reward, o.bonus_belts), (Item::Gear, 6, 25, 10));
    game.order_index = 2;
    let o = game.order();
    assert_eq!((o.item, o.amount, o.reward, o.bonus_belts), (Item::Circuit, 5, 35, 12));
    game.order_index = 3;
    let o = game.order();
    assert_eq!((o.item, o.amount, o.reward, o.bonus_belts), (Item::Gear, 8, 44, 6));
    game.order_index = 4;
    let o = game.order();
    assert_eq!((o.item, o.amount, o.reward, o.bonus_belts), (Item::Circuit, 11, 52, 6));
}

#[test]
fn placing_reports_each_refusal() {
    let mut game = Game::new();
    assert_eq!(game.place(22, 0, Kind::Belt, Direction::East), Err("Outside the factory"));
    assert_eq!(game.place(0, 0, Kind::Hub, Direction::East), Err("The hub is fixed"));
    assert_eq!(game.place(18, 7, Kind::Belt, Direction::East), Err("That tile is occupied"));
    assert_eq!(game.place(0, 0, Kind::Miner, Direction::East), Err("Miners need an ore deposit"));
    game.buildings[Kind::Splitter.index()] = 0;
    assert_eq!(
        game.place(0, 0, Kind::Splitter, Direction::East),
        Err("No buildings left. Buy another in Inventory.")
    );
    game.place(0, 0, Kind::Belt, Direction::South).unwrap();
    assert_eq!(game.placed, 1);
    assert_eq!(game.buildings[Kind::Belt.index()], 23);
    assert_eq!(game.notice, "Conveyor placed. Outputs travel ↓.");
}

#[test]
fn placing_then_removing_restores_inventory_and_floor() {
    let mut game = Game::new();
    let before = game.clone();
    game.place(4, 7, Kind::Miner, Direction::North).unwrap();
    game.remove(4, 7).unwrap();
    assert_eq!(game.buildings, before.buildings);
    assert_eq!(game.stock, before.stock);
    assert!(game.tiles[7 * WIDTH + 4].building.is_none());
    assert_eq!(game.tiles[7 * WIDTH + 4].deposit, Some(Item::IronOre));
    assert_eq!(game.notice, "Miner recovered to inventory.");
}

#[test]
fn removing_reports_each_refusal_and_keeps_the_hub() {
    let mut game = Game::new();
    assert_eq!(game.remove(30, 0), Err("Outside the factory"));
    assert_eq!(game.remove(0, 0), Err("Nothing to remove"));
    assert_eq!(game.remove(18, 7), Err("The delivery hub stays in place"));
    assert_eq!(game.tiles[7 * WIDTH + 18].building.as_ref().unwrap().kind, Kind::Hub);
}

#[test]
fn removing_refunds_contents_saturating() {
    let mut game = Game::new();
    game.place(5, 7, Kind::Furnace, Direction::East).unwrap();
    let tile = &mut game.tiles[7 * WIDTH + 5];
    let furnace: &mut Building = tile.building.as_mut().unwrap();
    furnace.input[Item::IronOre.index()] = 3;
    furnace.output = Some(Item::IronBar);
    game.stock[Item::IronOre.index()] = u16::MAX - 1;
    game.remove(5, 7).unwrap();
    assert_eq!(game.stock[Item::IronOre.index()], u16::MAX);
    assert_eq!(game.stock[Item::IronBar.index()], 1);
}

#[test]
fn buying_costs_credits() {
    let mut game = Game::new();
    assert_eq!(game.buy(Kind::Hub), Err("The hub cannot be purchased"));
    assert_eq!(
        game.buy(Kind::Miner),
        Err("Not enough credits. Complete an order to earn more.")
    );
    game.buy(Kind::Splitter).unwrap();
    assert_eq!(game.credits, 0);
    assert_eq!(game.buildings[Kind::Splitter.index()], 3);
    assert_eq!(game.notice, "Purchased one Splitter.");
    assert_eq!(Kind::Miner.price(), 8);
    assert_eq!(Kind::Assembler.price(), 12);
}

#[test]
fn injecting_reports_each_refusal() {
    let mut game = Game::new();
    assert_eq!(game.inject(40, 0, Item::IronOre), Err("Outside the factory"));
    assert_eq!(game.inject(0, 0, Item::Gear), Err("No item in inventory"));
    assert_eq!(
        game.inject(0, 0, Item::IronOre),
        Err("That building cannot take this item")
    );
    game.place(5, 7, Kind::Furnace, Direction::East).unwrap();
    assert_eq!(
        game.inject(5, 7, Item::Gear),
        Err("No item in inventory")
    );
    game.inject(5, 7, Item::IronOre).unwrap();
    assert_eq!(game.stock[Item::IronOre.index()], 3);
    assert_eq!(game.notice, "Loaded Iron ore by hand.");
}

#[test]
fn hand_delivery_to_the_hub_counts_toward_the_contract() {
    let mut game = Game::new();
    game.stock[Item::IronBar.index()] = 8;
    for _ in 0..8 {
        game.inject(18, 7, Item::IronBar).unwrap();
    }
    assert_eq!(game.delivered[Item::IronBar.index()], 8);
    assert_eq!(game.order_index, 1);
    assert_eq!(game.order_progress, 0);
    assert_eq!(game.credits, 20);
    assert_eq!(game.buildings[Kind::Belt.index()], 32);
    assert_eq!(game.notice, "Loaded Iron ingot by hand.");
}

#[test]
fn taking_output_and_turning_and_recipes_report_refusals() {
    let mut game = Game::new();
    assert_eq!(game.take_output(0, 0), Err("No finished item here"));
    assert_eq!(game.take_output(99, 0), Err("Outside the factory"));
    assert_eq!(game.rotate(0, 0), Err("Nothing to rotate"));
    assert_eq!(game.rotate(18, 7), Err("The hub cannot rotate"));
    assert_eq!(game.rotate(0, 99), Err("Outside the factory"));
    assert_eq!(game.set_recipe(0, 0), Err("No assembler here"));
    assert_eq!(game.set_recipe(18, 7), Err("Only assemblers have recipes"));
    assert_eq!(game.set_recipe(0, 99), Err("Outside the factory"));
    game.place(0, 0, Kind::Belt, Direction::North).unwrap();
    for expected in [Direction::East, Direction::South, Direction::West, Direction::North] {
        game.rotate(0, 0).unwrap();
        assert_eq!(game.tiles[0].building.as_ref().unwrap().direction, expected);
    }
    game.place(1, 0, Kind::Assembler, Direction::North).unwrap();
    game.set_recipe(1, 0).unwrap();
    assert_eq!(game.tiles[1].building.as_ref().unwrap().recipe, Recipe::Circuit);
    assert_eq!(game.notice, "Assembler set to Circuit.");
}

#[test]
fn paused_factory_does_not_move() {
    let mut game = Game::new();
    game.place(4, 7, Kind::Miner, Direction::East).unwrap();
    game.paused = true;
    for _ in 0..10 {
        game.tick();
    }
    assert_eq!(game.ticks, 0);
    assert_eq!(game.tiles[7 * WIDTH + 4].building.as_ref().unwrap().progress, 0);
}

#[test]
fn miner_finishes_ore_every_fourth_tick_and_belts_carry_it() {
    let mut game = Game::new();
    game.place(4, 7, Kind::Miner, Direction::East).unwrap();
    game.place(5, 7, Kind::Belt, Direction::East).unwrap();
    for _ in 0..3 {
        game.tick();
    }
    assert_eq!(game.tiles[7 * WIDTH + 4].building.as_ref().unwrap().output, None);
    game.tick();
    assert_eq!(
        game.tiles[7 * WIDTH + 4].building.as_ref().unwrap().output,
        Some(Item::IronOre)
    );
    assert_eq!(game.produced[Item::IronOre.index()], 1);
    game.tick();
    assert_eq!(
        game.tiles[7 * WIDTH + 5].building.as_ref().unwrap().output,
        Some(Item::IronOre)
    );
    assert_eq!(game.ticks, 5);
}

#[test]
fn splitter_alternates_between_its_outlets() {
    let mut game = Game::new();
    game.place(10, 10, Kind::Splitter, Direction::East).unwrap();
    game.place(11, 10, Kind::Belt, Direction::North).unwrap();
    game.place(10, 11, Kind::Belt, Direction::North).unwrap();
    game.tiles[10 * WIDTH + 10].building.as_mut().unwrap().output = Some(Item::Gear);
    game.tick();
    assert_eq!(game.tiles[10 * WIDTH + 11].building.as_ref().unwrap().output, Some(Item::Gear));
    assert!(game.tiles[10 * WIDTH + 10].building.as_ref().unwrap().split_next);
    game.tiles[10 * WIDTH + 11].building.as_mut().unwrap().output = None;
    game.tiles[10 * WIDTH + 10].building.as_mut().unwrap().output = Some(Item::Gear);
    game.tick();
    assert_eq!(game.tiles[11 * WIDTH + 10].building.as_ref().unwrap().output, Some(Item::Gear));
}

#[test]
fn furnace_never_holds_more_than_eight_of_an_input() {
    let mut game = Game::new();
    game.place(5, 7, Kind::Furnace, Direction::East).unwrap();
    game.stock[Item::IronOre.index()] = 20;
    for _ in 0..8 {
        game.inject(5, 7, Item::IronOre).unwrap();
    }
    assert_eq!(
        game.inject(5, 7, Item::IronOre),
        Err("That building cannot take this item")
    );
    assert_eq!(game.tiles[7 * WIDTH + 5].building.as_ref().unwrap().input[0], 8);
}

#[test]
fn names_sprites_and_turns() {
    assert_eq!(Item::CopperBar.name(), "Copper ingot");
    assert_eq!(Item::Circuit.sprite(), 5);
    assert_eq!(Kind::Belt.name(), "Conveyor");
    assert_eq!(Kind::Splitter.sprite(), 10);
    assert_eq!(Direction::West.next(), Direction::North);
    assert_eq!(Direction::North.delta(), (0, -1));
    assert_eq!(Direction::East.glyph(), "→");
    assert_eq!(Recipe::Gear.next(), Recipe::Circuit);
    assert_eq!(Recipe::Circuit.item(), Item::Circuit);
    assert_eq!(Item::ALL.len(), 6);
    assert_eq!(Kind::BUILDABLE[3], Kind::Belt);
    for d in [Direction::North, Direction::East, Direction::South, Direction::West] {
        assert_eq!(d.next().next().next().next(), d);
    }
    let b = Building::new(Kind::Furnace, Direction::South);
    assert_eq!(b.input, [0; 6]);
    assert_eq!(b.recipe, Recipe::Gear);
}

#[test]
fn tick_fits_only_while_every_counter_has_room() {
    let game = Game::new();
    assert!(game.tick_fits());
    let mut full = Game::new();
    full.ticks = u64::MAX;
    assert!(!full.tick_fits());
    full.paused = true;
    assert!(full.tick_fits());
    full.tick();
    assert_eq!(full.ticks, u64::MAX);
    let mut rich = Game::new();
    rich.credits = u32::MAX - 100;
    assert!(!rich.tick_fits());
    let mut busy = Game::new();
    busy.produced[2] = u32::MAX - 329;
    assert!(!busy.tick_fits());
    busy.produced[2] = u32::MAX - 330;
    assert!(busy.tick_fits());
}

#[test]
fn a_tick_only_advances_the_clock_and_raises_counters() {
    let mut game = Game::new();
    game.place(4, 7, Kind::Miner, Direction::East).unwrap();
    game.place(5, 7, Kind::Furnace, Direction::East).unwrap();
    for x in 6..18 {
        game.place(x, 7, Kind::Belt, Direction::East).unwrap();
    }
    for _ in 0..300 {
        let before = game.clone();
        game.tick();
        assert_eq!(game.ticks, before.ticks + 1);
        assert_eq!(game.stock, before.stock);
        assert_eq!(game.placed, before.placed);
        assert_eq!(game.hub, before.hub);
        assert!(game.credits >= before.credits);
        for k in 0..5 {
            assert!(game.buildings[k] >= before.buildings[k]);
        }
        for k in 0..6 {
            assert!(game.delivered[k] >= before.delivered[k]);
            assert!(game.produced[k] >= before.produced[k]);
        }
        for (a, b) in before.tiles.iter().zip(&game.tiles) {
            assert_eq!(a.deposit, b.deposit);
            assert_eq!(a.building.is_some(), b.building.is_some());
            if let (Some(a), Some(b)) = (&a.building, &b.building) {
                assert!(a.kind == b.kind && a.direction == b.direction && a.recipe == b.recipe);
            }
        }
    }
    assert!(game.credits > 4);
    game.paused = true;
    let before = game.clone();
    game.tick();
    assert_eq!(game.ticks, before.ticks);
    assert_eq!(game.credits, before.credits);
}

#[test]
fn commands_keep_one_west_facing_hub_and_miners_on_ore() {
    let mut game = Game::new();
    let hub = 7 * WIDTH + 18;
    let _ = game.place(18, 7, Kind::Belt, Direction::East);
    let _ = game.rotate(18, 7);
    let _ = game.remove(18, 7);
    let _ = game.place(0, 0, Kind::Miner, Direction::East);
    game.place(4, 7, Kind::Miner, Direction::North).unwrap();
    game.rotate(4, 7).unwrap();
    for _ in 0..30 {
        game.tick();
    }
    for (i, tile) in game.tiles.iter().enumerate() {
        match &tile.building {
            Some(b) if b.kind == Kind::Hub => {
                assert_eq!(i, hub);
                assert_eq!(b.direction, Direction::West);
            }
            Some(b) if b.kind == Kind::Miner => assert!(tile.deposit.is_some()),
            _ => {}
        }
    }
    assert!(game.tiles[hub].building.is_some());
}

#[test]
fn a_factory_near_its_limits_still_ticks_when_nothing_would_overflow() {
    let mut rich = Game::new();
    rich.credits = u32::MAX;
    rich.produced = [u32::MAX; 6];
    assert!(!rich.tick_fits());
    rich.place(10, 6, Kind::Belt, Direction::East).unwrap();
    rich.tick();
    assert_eq!(rich.ticks, 1);
    assert_eq!(rich.credits, u32::MAX);
    assert_eq!(rich.produced, [u32::MAX; 6]);
}
