//! What a loaded save must hold before the factory resumes from it.
use vstd::prelude::*;
use crate::sim::{Game, GameModel, Kind, HEIGHT, WIDTH};

verus! {

/// Why a loaded save cannot be resumed, if it cannot.
pub open spec fn save_refusal(g: GameModel) -> Option<Seq<char>> {
    if g.tiles.len() != 330 {
        Some("Save has an invalid board size"@)
    } else if g.terrain.len() != 330 {
        Some("Save has invalid floor tiles"@)
    } else if !(g.hub[0] < 22 && g.hub[1] < 15) {
        Some("Save hub lies outside the board"@)
    } else if !(g.tiles[g.hub[1] * 22 + g.hub[0]].building matches Some(b) && b.kind
        == Kind::Hub) {
        Some("Save is missing its hub"@)
    } else if g.first_order_amount == 0 {
        Some("Save has an invalid first order"@)
    } else {
        None
    }
}

/// Checks a loaded save: full-size floor and terrain, a hub on the board holding the hub
/// building, and a first contract that asks for something.
pub fn validate_save(game: &Game) -> (result: Result<(), &'static str>)
    ensures
        match save_refusal(game@) {
            Some(message) => result matches Err(e) && e@ == message,
            None => result is Ok,
        },
{
    if game.tiles.len() != WIDTH * HEIGHT {
        return Err("Save has an invalid board size");
    }
    if game.terrain.len() != WIDTH * HEIGHT {
        return Err("Save has invalid floor tiles");
    }
    let hub = match Game::index(game.hub[0], game.hub[1]) {
        Some(hub) => hub,
        None => return Err("Save hub lies outside the board"),
    };
    let has_hub = match &game.tiles[hub].building {
        Some(b) => b.kind == Kind::Hub,
        None => false,
    };
    assert(game.tiles@[hub as int]@ == game@.tiles[hub as int]);
    if !has_hub {
        return Err("Save is missing its hub");
    }
    if game.first_order_amount == 0 {
        return Err("Save has an invalid first order");
    }
    Ok(())
}

} // verus!
