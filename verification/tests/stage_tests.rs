use bozz_torio::multiplayer::{ensure_no_steam_join, structural_difference, Action, Change};
use bozz_torio::runtime::direction_name;
use bozz_torio::sim::{Direction, Game, Item, Kind, WIDTH};
use bozz_torio::stage::{collapse_transfers, producer_indices, ItemTransfer};

#[test]
fn powered_double_hops_are_one_visual_motion() {
    let item = Item::IronOre;
    let motions = collapse_transfers(&[
        ItemTransfer { from: 1, to: 2, item },
        ItemTransfer { from: 2, to: 3, item },
    ]);
    assert_eq!(motions, vec![ItemTransfer { from: 1, to: 3, item }]);
}

#[test]
fn unrelated_transfers_stay_separate_motions() {
    let motions = collapse_transfers(&[
        ItemTransfer { from: 1, to: 2, item: Item::IronOre },
        ItemTransfer { from: 2, to: 3, item: Item::Gear },
        ItemTransfer { from: 7, to: 8, item: Item::IronOre },
    ]);
    assert_eq!(motions.len(), 3);
    assert!(collapse_transfers(&[]).is_empty());
}

#[test]
fn producers_are_miners_furnaces_and_assemblers() {
    let mut game = Game::new();
    assert!(producer_indices(&game).is_empty());
    game.place(4, 7, Kind::Miner, Direction::East).unwrap();
    game.place(5, 7, Kind::Belt, Direction::East).unwrap();
    game.place(6, 7, Kind::Furnace, Direction::East).unwrap();
    assert_eq!(producer_indices(&game), vec![7 * WIDTH + 4, 7 * WIDTH + 6]);
}

#[test]
fn building_changes_rebuild_the_replica_but_item_progress_does_not() {
    let original = Game::new();
    let mut next = original.clone();
    next.ticks += 1;
    assert!(!structural_difference(&original, &next));
    next.place(4, 7, Kind::Miner, Direction::East).unwrap();
    assert!(structural_difference(&original, &next));
}

#[test]
fn ticking_never_rebuilds_the_replica() {
    let mut game = Game::new();
    game.place(4, 7, Kind::Miner, Direction::East).unwrap();
    game.place(5, 7, Kind::Furnace, Direction::East).unwrap();
    let before = game.clone();
    for _ in 0..20 {
        game.tick();
    }
    assert!(!structural_difference(&before, &game));
    let mut turned = game.clone();
    turned.rotate(5, 7).unwrap();
    assert!(structural_difference(&game, &turned));
    let mut moved_hub = game.clone();
    moved_hub.hub = [0, 0];
    assert!(structural_difference(&game, &moved_hub));
}

#[test]
fn actions_apply_to_the_factory_and_report_structure() {
    let mut game = Game::new();
    let place = Action::Place { x: 4, y: 7, kind: Kind::Miner, direction: Direction::East };
    assert!(place.structural());
    place.apply(&mut game).unwrap();
    assert_eq!(game.placed, 1);
    assert!(Action::Rotate { x: 4, y: 7 }.structural());
    assert!(Action::Remove { x: 4, y: 7 }.structural());
    assert!(!Action::Buy { kind: Kind::Belt }.structural());
    assert!(!Action::TogglePause.structural());
    Action::TogglePause.apply(&mut game).unwrap();
    assert!(game.paused);
    assert_eq!(Action::Buy { kind: Kind::Hub }.apply(&mut game), Err("The hub cannot be purchased"));
    assert_eq!(Action::Recipe { x: 4, y: 7 }.apply(&mut game), Err("Only assemblers have recipes"));
    assert_eq!(Action::TakeOutput { x: 4, y: 7 }.apply(&mut game), Err("No finished item here"));
    assert_eq!(
        Action::Inject { x: 4, y: 7, item: Item::IronOre }.apply(&mut game),
        Err("That building cannot take this item")
    );
    Action::Rotate { x: 4, y: 7 }.apply(&mut game).unwrap();
    Action::Remove { x: 4, y: 7 }.apply(&mut game).unwrap();
    assert_eq!(game.buildings[Kind::Miner.index()], 2);
}

#[test]
fn joining_needs_steam() {
    assert_eq!(ensure_no_steam_join(None), Ok(()));
    assert_eq!(
        ensure_no_steam_join(Some(5)),
        Err("Steam multiplayer support is not compiled")
    );
    let change = Change::default();
    assert!(!change.state && !change.structural && !change.guest_lost && !change.join_failed);
}

#[test]
fn direction_names_are_compass_letters() {
    assert_eq!(direction_name(Direction::North), "N");
    assert_eq!(direction_name(Direction::East), "E");
    assert_eq!(direction_name(Direction::South), "S");
    assert_eq!(direction_name(Direction::West), "W");
}

#[test]
fn collapsed_motions_start_where_transfers_started_in_order() {
    let item = Item::IronOre;
    let transfers = [
        ItemTransfer { from: 1, to: 2, item },
        ItemTransfer { from: 9, to: 10, item: Item::Gear },
        ItemTransfer { from: 2, to: 3, item },
        ItemTransfer { from: 3, to: 4, item },
    ];
    let motions = collapse_transfers(&transfers);
    let froms: Vec<usize> = motions.iter().map(|m| m.from).collect();
    assert_eq!(froms, vec![1, 9]);
    assert_eq!(motions[0].to, 4);
    let unchained = [
        ItemTransfer { from: 5, to: 6, item },
        ItemTransfer { from: 1, to: 2, item },
        ItemTransfer { from: 6, to: 7, item: Item::Gear },
    ];
    assert_eq!(collapse_transfers(&unchained), unchained.to_vec());
}

#[test]
fn producer_indices_are_increasing_and_exact() {
    let mut game = Game::new();
    game.place(8, 12, Kind::Miner, Direction::East).unwrap();
    game.place(4, 7, Kind::Miner, Direction::East).unwrap();
    game.place(10, 6, Kind::Assembler, Direction::East).unwrap();
    game.place(11, 6, Kind::Belt, Direction::East).unwrap();
    let indices = producer_indices(&game);
    assert!(indices.windows(2).all(|w| w[0] < w[1]));
    for (i, tile) in game.tiles.iter().enumerate() {
        let producer = tile.building.as_ref().is_some_and(|b| {
            matches!(b.kind, Kind::Miner | Kind::Furnace | Kind::Assembler)
        });
        assert_eq!(indices.contains(&i), producer);
    }
}
