use bozz_torio::json::Json;
use bozz_torio::scene::{new_game_from_scene, scene_atlas, scene_source, sprite_cell, SceneError};
use bozz_torio::scene_numbers::{read_whole, turns_of, Reading};
use bozz_torio::sim::{Direction, Item, Kind, HEIGHT, WIDTH};

/// A sprite object: id, name, position, rotation and frame.
fn sprite(id: &str, x: f64, y: f64, rotation: f64, frame: u64) -> String {
    format!(
        r#"{{"id":"{id}","name":"{id}","transform":{{"translation":[{x:?},{y:?},0.2],"rotation_degrees":[0,0,{rotation:?}],"scale":[1,1,1]}},"sprite":{{"image":"sprites","frame":{frame}}}}}"#
    )
}

/// The authored factory scene: the 22 × 15 floor, four deposits, the hub, a machine
/// template below the board, and the given extra objects and blackboard entries.
fn scene_text(hub_x: f64, extra: &[String], blackboard: &str) -> String {
    let mut cells: Vec<String> = (0..WIDTH * HEIGHT).map(|i| ((i % 9) + 1).to_string()).collect();
    cells[0] = "15".into();
    let mut objects = vec![
        format!(
            r#"{{"id":"floor","name":"Factory floor","tilemap":{{"image":"sprites","dimensions":[22,15],"cells":[{}]}}}}"#,
            cells.join(",")
        ),
        sprite("iron-a", -6.5, 0.0, 0.0, 12),
        sprite("iron-b", -5.5, 4.0, 0.0, 12),
        sprite("copper-a", -6.5, -4.0, 0.0, 13),
        sprite("copper-b", -2.5, -5.0, 0.0, 13),
        sprite("delivery-hub", hub_x, 0.0, 0.0, 11),
        sprite("miner-template", -6.5, -10.0, 0.0, 6),
    ];
    objects.extend(extra.iter().cloned());
    format!(
        r#"{{"version":1,"name":"Bozz-torio — Factory Floor","views":{{"2d":"main"}},"assets":{{"sprites":{{"kind":"image","path":"sprites.png"}}}},"objects":[{}],"blackboard":{{{}}}}}"#,
        objects.join(","),
        blackboard
    )
}

#[test]
fn authored_editor_scene_drives_new_factory() {
    let text = scene_text(7.5, &[], "");
    assert_eq!(scene_atlas(&text).unwrap(), "sprites.png");
    let source = scene_source(&text, true).unwrap();
    let game = new_game_from_scene(&source).unwrap();
    assert_eq!(source.name, "Bozz-torio — Factory Floor");
    assert_eq!(game.hub, [18, 7]);
    assert_eq!(game.buildings, [2, 2, 2, 24, 2]);
    assert_eq!(game.tiles[7 * WIDTH + 4].deposit, Some(Item::IronOre));
    assert_eq!(game.tiles[3 * WIDTH + 5].deposit, Some(Item::IronOre));
    assert_eq!(game.tiles[11 * WIDTH + 4].deposit, Some(Item::CopperOre));
    assert_eq!(game.tiles[12 * WIDTH + 8].deposit, Some(Item::CopperOre));
    assert_eq!(game.terrain[0], 14);
    let hub = game.tiles[7 * WIDTH + 18].building.unwrap();
    assert_eq!((hub.kind, hub.direction), (Kind::Hub, Direction::West));
    assert_eq!(game.placed, 0);
    assert_eq!(game.stock, [4, 4, 0, 0, 0, 0]);
    assert_eq!((game.credits, game.first_order_amount, game.first_order_reward), (4, 8, 16));
    assert_eq!(
        game.notice,
        "Bozz-torio — Factory Floor loaded. Build from the starter inventory or edit the scene in Bozzard."
    );
}

#[test]
fn moved_hub_and_prebuilt_machine_in_scene_change_playable_layout() {
    let furnace = sprite("placed-furnace", -5.5, 0.0, 90.0, 7);
    let text = scene_text(
        8.5,
        &[furnace],
        r#""starter_conveyors":{"scalar":{"number":30}},"world_seed":{"scalar":{"number":42}}"#,
    );
    let source = scene_source(&text, true).unwrap();
    assert_eq!(source.world_seed, 42);
    let game = new_game_from_scene(&source).unwrap();
    assert_eq!(game.hub, [19, 7]);
    assert_eq!(game.buildings[Kind::Belt.index()], 30);
    let furnace = game.tiles[7 * WIDTH + 5].building.unwrap();
    assert_eq!(furnace.kind, Kind::Furnace);
    assert_eq!(furnace.direction, Direction::North);
    assert_eq!(game.placed, 1);
}

#[test]
fn scene_refusals_name_what_is_wrong() {
    assert_eq!(scene_source("not json", true).err(), Some(SceneError::NotJson));
    let good = scene_text(7.5, &[], "");
    assert_eq!(scene_source(&good, false).err(), Some(SceneError::AtlasMissing));
    assert_eq!(
        scene_source(&good.replace(r#""version":1"#, r#""version":2"#), true).err(),
        Some(SceneError::Version)
    );
    assert_eq!(
        scene_source(&good.replace(r#""kind":"image""#, r#""kind":"audio""#), true).err(),
        Some(SceneError::SpritesNotImage)
    );
    assert_eq!(
        scene_source(&good.replace("[22,15]", "[22,16]"), true).err(),
        Some(SceneError::TilemapSize)
    );
    assert_eq!(
        scene_source(&good.replace(r#""cells":[15,"#, r#""cells":[101,"#), true).err(),
        Some(SceneError::CellOutOfAtlas)
    );
    let second_hub = sprite("hub-2", 0.5, 0.0, 0.0, 11);
    assert_eq!(
        scene_source(&scene_text(7.5, &[second_hub], ""), true).err(),
        Some(SceneError::TwoHubs)
    );
    let far_ore = sprite("far-ore", 40.0, 0.0, 0.0, 12);
    assert_eq!(
        scene_source(&scene_text(7.5, &[far_ore], ""), true).err(),
        Some(SceneError::OffFloor(7))
    );
    let bare_miner = sprite("bare-miner", 0.5, 0.0, 0.0, 6);
    assert_eq!(
        scene_source(&scene_text(7.5, &[bare_miner], ""), true).err(),
        Some(SceneError::MinerOffOre(11, 7))
    );
    let two = [sprite("m1", -6.5, 0.0, 0.0, 6), sprite("m2", -6.5, 0.0, 0.0, 6)];
    assert_eq!(
        scene_source(&scene_text(7.5, &two, ""), true).err(),
        Some(SceneError::BuildingsOverlap(4, 7))
    );
    let on_ore = scene_text(-6.5, &[], "");
    assert_eq!(scene_source(&on_ore, true).err(), Some(SceneError::HubOnDeposit));
    assert_eq!(
        scene_source(&scene_text(7.5, &[], r#""first_order_ingots":{"scalar":{"number":0}}"#), true).err(),
        Some(SceneError::FirstOrderZero)
    );
    assert_eq!(
        scene_source(&scene_text(7.5, &[], r#""starter_miners":{"scalar":{"number":2.5}}"#), true).err(),
        Some(SceneError::OutOfRange(0))
    );
    assert_eq!(
        scene_source(&scene_text(7.5, &[], r#""starter_credits":{"scalar":{"text":"x"}}"#), true).err(),
        Some(SceneError::NotNumeric(13))
    );
}

fn position(x: f64, y: f64) -> Json {
    Json::Object(vec![(
        "transform".to_string(),
        Json::Object(vec![(
            "translation".to_string(),
            Json::Array(vec![Json::Float(x.to_bits()), Json::Float(y.to_bits())]),
        )]),
    )])
}

/// The cell binary64 arithmetic gives for a sprite at (`x`, `y`).
fn float_cell(x: f64, y: f64) -> Option<(usize, usize)> {
    let cx = (x + 10.5).round() as isize;
    let cy = (7.0 - y).round() as isize;
    if cx < 0 || cy < 0 || cx >= WIDTH as isize || cy >= HEIGHT as isize {
        None
    } else {
        Some((cx as usize, cy as usize))
    }
}

#[test]
fn sprite_cells_match_binary64_rounding_at_every_boundary() {
    let mut samples = vec![0.0, -0.0, 1e-300, -1e-300, 1e300, -1e300, 0.25, 7.5, -6.5];
    for k in -14..16 {
        let half = k as f64 + 0.5;
        for v in [half, half - 1e-9] {
            let mut below = v;
            let mut above = v;
            for _ in 0..4 {
                samples.push(below);
                samples.push(above);
                below = f64::from_bits(below.to_bits().wrapping_sub(if below > 0.0 { 1 } else { 0 }).wrapping_add(if below < 0.0 { 1 } else { 0 }));
                above = f64::from_bits(above.to_bits().wrapping_add(if above > 0.0 { 1 } else { 0 }).wrapping_sub(if above < 0.0 { 1 } else { 0 }));
            }
        }
        samples.push(k as f64);
        samples.push(1.0 - 2f64.powi(-53));
        samples.push(-(1.0 - 2f64.powi(-53)));
    }
    for &x in &samples {
        for &y in &[0.0, 0.5, -0.5, 6.5, -7.5 + 2f64.powi(-50), 7.5 - 2f64.powi(-55), x] {
            assert_eq!(sprite_cell(&position(x, y)), Ok(float_cell(x, y)), "at {x:e}, {y:e}");
        }
        for &y in &samples {
            assert_eq!(sprite_cell(&position(0.5, y)), Ok(float_cell(0.5, y)), "at 0.5, {y:e}");
        }
    }
    assert_eq!(sprite_cell(&position(1.0 - 2f64.powi(-53), 0.0)), Ok(Some((12, 7))));
    assert_eq!(sprite_cell(&Json::Null), Err(SceneError::NoX));
    assert_eq!(
        sprite_cell(&position(f64::NAN, 0.0)),
        Err(SceneError::PositionNotFinite)
    );
}

#[test]
fn rotations_round_to_the_nearest_quarter_turn() {
    for degrees in [0.0, 44.9, 45.0, -45.0, 90.0, 134.0, 135.0, 180.0, 225.0, 270.0, -90.0, 359.0, 1e12, -1e12, 1e-300] {
        let quarter = ((degrees / 90.0f64).round() as i32).rem_euclid(4) as u8;
        assert_eq!(turns_of(&Json::Float(f64::to_bits(degrees))), Some(quarter), "at {degrees}");
    }
    assert_eq!(turns_of(&Json::UInt(270)), Some(3));
    assert_eq!(turns_of(&Json::Int(-90)), Some(3));
    assert_eq!(turns_of(&Json::Null), Some(0));
    assert_eq!(turns_of(&Json::Float(f64::INFINITY.to_bits())), None);
}

#[test]
fn settings_are_whole_numbers_within_range() {
    assert_eq!(read_whole(&Json::UInt(30), 65535), Reading::Value(30));
    assert_eq!(read_whole(&Json::Float(30.0f64.to_bits()), 65535), Reading::Value(30));
    assert_eq!(read_whole(&Json::Float((-0.0f64).to_bits()), 65535), Reading::Value(0));
    assert_eq!(read_whole(&Json::Float(2.5f64.to_bits()), 65535), Reading::OutOfRange);
    assert_eq!(read_whole(&Json::Int(-1), 65535), Reading::OutOfRange);
    assert_eq!(read_whole(&Json::UInt(65536), 65535), Reading::OutOfRange);
    assert_eq!(read_whole(&Json::Float(4294967295.0f64.to_bits()), 4294967295), Reading::Value(4294967295));
    assert_eq!(read_whole(&Json::Text("3".into()), 65535), Reading::NotNumber);
}

#[test]
fn coal_and_power_sprites_are_checked_then_passed_over() {
    let on_floor = [
        sprite("coal", 0.5, 1.0, 0.0, 17),
        sprite("generator", 1.5, 1.0, 90.0, 18),
        sprite("pole", 2.5, 1.0, 0.0, 19),
        sprite("generator-template", 1.5, -20.0, 0.0, 18),
    ];
    let source = scene_source(&scene_text(7.5, &on_floor, ""), true).unwrap();
    assert!(source.machines.is_empty());
    assert_eq!(source.deposits.len(), 4);
    let far_coal = sprite("far-coal", 0.5, -20.0, 0.0, 17);
    assert_eq!(
        scene_source(&scene_text(7.5, &[far_coal], ""), true).err(),
        Some(SceneError::OffFloor(7))
    );
}
