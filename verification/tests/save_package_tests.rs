use bozz_torio::package::{packaged_asset_parts, AssetPathError};
use bozz_torio::save::validate_save;
use bozz_torio::sim::Game;

#[test]
fn loaded_saves_are_checked_before_resuming() {
    let game = Game::new();
    assert_eq!(validate_save(&game), Ok(()));
    let mut bad = game.clone();
    bad.tiles.pop();
    assert_eq!(validate_save(&bad), Err("Save has an invalid board size"));
    let mut bad = game.clone();
    bad.terrain.clear();
    assert_eq!(validate_save(&bad), Err("Save has invalid floor tiles"));
    let mut bad = game.clone();
    bad.hub = [0, 15];
    assert_eq!(validate_save(&bad), Err("Save hub lies outside the board"));
    let mut bad = game.clone();
    bad.hub = [1, 1];
    assert_eq!(validate_save(&bad), Err("Save is missing its hub"));
    let mut bad = game.clone();
    bad.first_order_amount = 0;
    assert_eq!(validate_save(&bad), Err("Save has an invalid first order"));
}

#[test]
fn scene_assets_are_packaged_beside_the_scene() {
    assert_eq!(
        packaged_asset_parts("sprites/atlas.png").unwrap(),
        vec!["scene".to_string(), "sprites".to_string(), "atlas.png".to_string()]
    );
    assert_eq!(
        packaged_asset_parts("../assets/a.png").unwrap(),
        vec!["assets".to_string(), "a.png".to_string()]
    );
    assert_eq!(packaged_asset_parts("../../a.png"), Err(AssetPathError::Escapes));
    assert_eq!(packaged_asset_parts("/etc/passwd"), Err(AssetPathError::Escapes));
    assert_eq!(packaged_asset_parts(".."), Err(AssetPathError::Empty));
}
