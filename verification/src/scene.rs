//! The Bozzard editor scene is the authored source for every new factory: its floor
//! tilemap, ore deposits, delivery hub and prebuilt machines, and the starting inventory
//! set on its blackboard.
use vstd::prelude::*;
use crate::json::{
    as_text, as_u64, at_index, at_key, exact_value, is_text, key_of, member, member_of, parse_json,
    text_is, Json, json_parsed,
};
use crate::scene_numbers::{
    cell_from_scaled, floor_cell, read_whole, reading, rotation_turns, scaled_number, turns_of,
    Reading,
};
use crate::sim::{Building, BuildingModel, Direction, Game, GameModel, Item, Kind, Tile, TileModel};

verus! {

/// Why a scene cannot start a factory.
#[derive(Clone, Copy, Debug, PartialEq, Eq, Structural)]
pub enum SceneError {
    /// The text is not JSON.
    NotJson,
    /// The scene is not a version 1 Bozzard scene.
    Version,
    /// It has no 2D camera.
    NoCamera,
    /// It has no name.
    NoName,
    /// It has no sprites image asset.
    NoSprites,
    /// The sprites asset is not an image.
    SpritesNotImage,
    /// The sprites image is not on disk.
    AtlasMissing,
    /// It has no object list.
    NoObjects,
    /// More than one factory tilemap.
    TwoTilemaps,
    /// The tilemap does not use the sprites asset.
    TilemapNotSprites,
    /// The tilemap is not 22 × 15 cells.
    TilemapSize,
    /// The tilemap has no cell list.
    NoCells,
    /// The tilemap does not have 330 cells.
    CellCount,
    /// A tilemap cell is not a whole number.
    CellNotInteger,
    /// A tilemap cell lies beyond the 10 × 10 sprite atlas.
    CellOutOfAtlas,
    /// A sprite has no X position.
    NoX,
    /// A sprite has no Y position.
    NoY,
    /// A sprite position is not finite.
    PositionNotFinite,
    /// A hub or deposit sprite lies off the floor: the object's place in the object list.
    OffFloor(usize),
    /// A machine's rotation is not finite.
    RotationNotFinite,
    /// More than one delivery hub.
    TwoHubs,
    /// No factory tilemap.
    NoTilemap,
    /// No delivery hub sprite.
    NoHub,
    /// A blackboard setting (see `setting_key`) is not a number.
    NotNumeric(usize),
    /// A blackboard setting is not a whole number within its range.
    OutOfRange(usize),
    /// The first contract asks for nothing.
    FirstOrderZero,
    /// Two deposits share the cell at this column and row.
    DepositsOverlap(usize, usize),
    /// The hub stands on a deposit.
    HubOnDeposit,
    /// Two buildings share the cell at this column and row.
    BuildingsOverlap(usize, usize),
    /// A miner at this column and row stands on no ore.
    MinerOffOre(usize, usize),
}

/// The blackboard settings, in the order they are read.
pub open spec fn setting_name(i: int) -> Seq<char> {
    if i == 0 {
        "starter_miners"@
    } else if i == 1 {
        "starter_furnaces"@
    } else if i == 2 {
        "starter_assemblers"@
    } else if i == 3 {
        "starter_conveyors"@
    } else if i == 4 {
        "starter_splitters"@
    } else if i == 5 {
        "starter_generators"@
    } else if i == 6 {
        "starter_power_poles"@
    } else if i == 7 {
        "starter_iron_ore"@
    } else if i == 8 {
        "starter_copper_ore"@
    } else if i == 9 {
        "starter_iron_ingots"@
    } else if i == 10 {
        "starter_copper_ingots"@
    } else if i == 11 {
        "starter_gears"@
    } else if i == 12 {
        "starter_circuits"@
    } else if i == 13 {
        "starter_credits"@
    } else if i == 14 {
        "first_order_ingots"@
    } else if i == 15 {
        "first_order_reward"@
    } else {
        "world_seed"@
    }
}

/// What a setting is when the blackboard does not set it.
pub open spec fn setting_default(i: int) -> u64 {
    if i <= 2 {
        2
    } else if i == 3 {
        24
    } else if i == 4 {
        2
    } else if i <= 6 {
        0
    } else if i <= 8 {
        4
    } else if i <= 12 {
        0
    } else if i == 13 {
        4
    } else if i == 14 {
        8
    } else if i == 15 {
        16
    } else {
        0
    }
}

/// The largest value a setting takes: inventory counts fit `u16`, the rest `u32`.
pub open spec fn setting_max(i: int) -> u64 {
    if i <= 12 {
        0xFFFF
    } else {
        0xFFFF_FFFF
    }
}

/// The number of blackboard settings.
pub const SETTINGS: usize = 17;

/// The name of blackboard setting `i`.
pub fn setting_key(i: usize) -> (key: &'static str)
    requires
        i < SETTINGS,
    ensures
        key@ == setting_name(i as int),
{
    if i == 0 {
        "starter_miners"
    } else if i == 1 {
        "starter_furnaces"
    } else if i == 2 {
        "starter_assemblers"
    } else if i == 3 {
        "starter_conveyors"
    } else if i == 4 {
        "starter_splitters"
    } else if i == 5 {
        "starter_generators"
    } else if i == 6 {
        "starter_power_poles"
    } else if i == 7 {
        "starter_iron_ore"
    } else if i == 8 {
        "starter_copper_ore"
    } else if i == 9 {
        "starter_iron_ingots"
    } else if i == 10 {
        "starter_copper_ingots"
    } else if i == 11 {
        "starter_gears"
    } else if i == 12 {
        "starter_circuits"
    } else if i == 13 {
        "starter_credits"
    } else if i == 14 {
        "first_order_ingots"
    } else if i == 15 {
        "first_order_reward"
    } else {
        "world_seed"
    }
}

/// The largest value blackboard setting `i` takes.
pub fn setting_limit(i: usize) -> (limit: u64)
    ensures
        limit == setting_max(i as int),
{
    if i <= 12 { 0xFFFF } else { 0xFFFF_FFFF }
}

/// Setting `i` of the blackboard `board`: its default when absent, else its whole value.
pub open spec fn setting_of(board: Json, i: int) -> Result<u64, SceneError> {
    match member(board, setting_name(i)) {
        None => Ok(setting_default(i)),
        Some(entry) => match reading(at_key(at_key(entry, "scalar"@), "number"@), setting_max(i)) {
            Reading::Value(n) => Ok(n),
            Reading::NotNumber => Err(SceneError::NotNumeric(i as usize)),
            Reading::OutOfRange => Err(SceneError::OutOfRange(i as usize)),
        },
    }
}

/// The settings read so far, in order; the first refusal stops the reading.
pub open spec fn settings_upto(board: Json, n: nat) -> Result<Seq<u64>, SceneError>
    decreases n,
{
    if n == 0 {
        Ok(seq![])
    } else {
        match settings_upto(board, (n - 1) as nat) {
            Err(e) => Err(e),
            Ok(values) => if n - 1 == 15 && values[14] == 0 {
                Err(SceneError::FirstOrderZero)
            } else {
                match setting_of(board, n - 1) {
                    Err(e) => Err(e),
                    Ok(v) => Ok(values.push(v)),
                }
            },
        }
    }
}

/// The floor terrain frame for a tilemap cell: an empty cell is 255, else the frame before.
pub open spec fn terrain_frame_of(cell: u64) -> u8 {
    if cell == 0 {
        255
    } else {
        (cell - 1) as u8
    }
}

/// The terrain of the first `n` tilemap cells, refused at the first cell that is not a
/// whole number up to 100.
pub open spec fn cells_upto(cells: Seq<Json>, n: nat) -> Result<Seq<u8>, SceneError>
    decreases n,
{
    if n == 0 {
        Ok(seq![])
    } else {
        match cells_upto(cells, (n - 1) as nat) {
            Err(e) => Err(e),
            Ok(t) => match as_u64(cells[n - 1]) {
                None => Err(SceneError::CellNotInteger),
                Some(c) => if c > 100 {
                    Err(SceneError::CellOutOfAtlas)
                } else {
                    Ok(t.push(terrain_frame_of(c)))
                },
            },
        }
    }
}

/// The floor a tilemap object describes.
pub open spec fn tilemap_floor(map: Json) -> Result<Seq<u8>, SceneError> {
    if !is_text(at_key(map, "image"@), "sprites"@) {
        Err(SceneError::TilemapNotSprites)
    } else if !(at_key(map, "dimensions"@) matches Json::Array(d) && d@.len() == 2 && d@[0]
        == Json::UInt(22) && d@[1] == Json::UInt(15)) {
        Err(SceneError::TilemapSize)
    } else {
        match at_key(map, "cells"@) {
            Json::Array(cells) => if cells@.len() != 330 {
                Err(SceneError::CellCount)
            } else {
                cells_upto(cells@, 330)
            },
            _ => Err(SceneError::NoCells),
        }
    }
}

/// Whether a value is a number.
pub open spec fn is_number(j: Json) -> bool {
    j is UInt || j is Int || j is Float
}

/// The floor cell an object's sprite stands on (see `floor_cell`), if it stands on the floor.
pub open spec fn object_cell(object: Json) -> Result<Option<(int, int)>, SceneError> {
    let t = at_key(at_key(object, "transform"@), "translation"@);
    let (x, y) = (at_index(t, 0), at_index(t, 1));
    if !is_number(x) {
        Err(SceneError::NoX)
    } else if !is_number(y) {
        Err(SceneError::NoY)
    } else {
        match (exact_value(x), exact_value(y)) {
            (Some(vx), Some(vy)) => Ok(floor_cell(vx, vy)),
            _ => Err(SceneError::PositionNotFinite),
        }
    }
}

/// The direction of a machine turned `turns` quarter turns anticlockwise from east.
pub open spec fn facing(turns: int) -> Direction {
    if turns == 0 {
        Direction::East
    } else if turns == 1 {
        Direction::North
    } else if turns == 2 {
        Direction::West
    } else {
        Direction::South
    }
}

/// The buildable kind a machine sprite frame (6 to 10) shows.
pub open spec fn machine_kind(frame: u64) -> Kind {
    if frame == 6 {
        Kind::Miner
    } else if frame == 7 {
        Kind::Furnace
    } else if frame == 8 {
        Kind::Assembler
    } else if frame == 9 {
        Kind::Belt
    } else {
        Kind::Splitter
    }
}

/// What the objects read so far have given.
pub struct ObjectsRead {
    pub floor: Option<Seq<u8>>,
    pub deposits: Seq<(usize, usize, Item)>,
    pub machines: Seq<(usize, usize, Kind, Direction)>,
    pub hub: Option<(usize, usize)>,
}

/// Reading one more object: a factory tilemap gives the floor; a sprite of the sprites
/// asset with frame 6 to 13 on the floor gives a machine (6 to 10, with its rotation), the
/// hub (11), or an iron (12) or copper (13) deposit. A machine sprite off the floor is a
/// template and is passed over; a hub or deposit off the floor is refused. Frames 17 (a
/// coal seam) and 18 and 19 (a generator and a power pole) are checked as the deposit and
/// the machines they are, position and rotation alike, and then passed over: this factory
/// has no coal and no power.
pub open spec fn read_object(r: ObjectsRead, object: Json, index: int) -> Result<ObjectsRead, SceneError> {
    let floored = if member(object, "tilemap"@) is Some {
        if r.floor is Some {
            Err(SceneError::TwoTilemaps)
        } else {
            match tilemap_floor(at_key(object, "tilemap"@)) {
                Err(e) => Err(e),
                Ok(t) => Ok(ObjectsRead { floor: Some(t), ..r }),
            }
        }
    } else {
        Ok(r)
    };
    match floored {
        Err(e) => Err(e),
        Ok(r) => match member(object, "sprite"@) {
            None => Ok(r),
            Some(sprite) => if !is_text(at_key(sprite, "image"@), "sprites"@) {
                Ok(r)
            } else {
                match as_u64(at_key(sprite, "frame"@)) {
                    None => Ok(r),
                    Some(frame) => if !(6 <= frame <= 13 || 17 <= frame <= 19) {
                        Ok(r)
                    } else {
                        match object_cell(object) {
                            Err(e) => Err(e),
                            Ok(None) => if frame <= 10 || frame >= 18 {
                                Ok(r)
                            } else {
                                Err(SceneError::OffFloor(index as usize))
                            },
                            Ok(Some((x, y))) => if frame == 17 {
                                Ok(r)
                            } else if frame >= 18 {
                                let rotation = at_index(
                                    at_key(at_key(object, "transform"@), "rotation_degrees"@),
                                    2,
                                );
                                match rotation_turns(rotation) {
                                    None => Err(SceneError::RotationNotFinite),
                                    Some(_) => Ok(r),
                                }
                            } else if frame <= 10 {
                                let rotation = at_index(
                                    at_key(at_key(object, "transform"@), "rotation_degrees"@),
                                    2,
                                );
                                match rotation_turns(rotation) {
                                    None => Err(SceneError::RotationNotFinite),
                                    Some(t) => Ok(
                                        ObjectsRead {
                                            machines: r.machines.push(
                                                (x as usize, y as usize, machine_kind(frame), facing(t)),
                                            ),
                                            ..r
                                        },
                                    ),
                                }
                            } else if frame == 11 {
                                if r.hub is Some {
                                    Err(SceneError::TwoHubs)
                                } else {
                                    Ok(ObjectsRead { hub: Some((x as usize, y as usize)), ..r })
                                }
                            } else {
                                Ok(
                                    ObjectsRead {
                                        deposits: r.deposits.push(
                                            (
                                                x as usize,
                                                y as usize,
                                                if frame == 12 {
                                                    Item::IronOre
                                                } else {
                                                    Item::CopperOre
                                                },
                                            ),
                                        ),
                                        ..r
                                    },
                                )
                            },
                        }
                    },
                }
            },
        },
    }
}

/// What nothing has given yet.
pub open spec fn nothing_read() -> ObjectsRead {
    ObjectsRead { floor: None, deposits: seq![], machines: seq![], hub: None }
}

/// Reading the first `n` objects in order.
pub open spec fn objects_upto(objects: Seq<Json>, n: nat) -> Result<ObjectsRead, SceneError>
    decreases n,
{
    if n == 0 {
        Ok(nothing_read())
    } else {
        match objects_upto(objects, (n - 1) as nat) {
            Err(e) => Err(e),
            Ok(r) => read_object(r, objects[n - 1], n - 1),
        }
    }
}

/// A scene as the rules see it.
pub struct SceneModel {
    pub name: Seq<char>,
    pub atlas: Seq<char>,
    pub terrain: Seq<u8>,
    pub deposits: Seq<(usize, usize, Item)>,
    pub machines: Seq<(usize, usize, Kind, Direction)>,
    pub hub: (usize, usize),
    pub inventory: Seq<u16>,
    pub stock: Seq<u16>,
    pub credits: u32,
    pub first_order_amount: u32,
    pub first_order_reward: u32,
    pub world_seed: u64,
}

/// The sprites image a scene names, once its header checks out.
pub open spec fn scene_atlas_of(value: Json) -> Result<Seq<char>, SceneError> {
    if as_u64(at_key(value, "version"@)) != Some(1u64) {
        Err(SceneError::Version)
    } else if !(at_key(at_key(value, "views"@), "2d"@) is Text) {
        Err(SceneError::NoCamera)
    } else if as_text(at_key(value, "name"@)) is None {
        Err(SceneError::NoName)
    } else {
        let sprites = at_key(at_key(value, "assets"@), "sprites"@);
        match as_text(at_key(sprites, "path"@)) {
            None => Err(SceneError::NoSprites),
            Some(path) => if !is_text(at_key(sprites, "kind"@), "image"@) {
                Err(SceneError::SpritesNotImage)
            } else {
                Ok(path)
            },
        }
    }
}

/// The scene a JSON document describes, given whether its sprites image is on disk.
pub open spec fn scene_of(value: Json, atlas_exists: bool) -> Result<SceneModel, SceneError> {
    match scene_atlas_of(value) {
        Err(e) => Err(e),
        Ok(atlas) => if !atlas_exists {
            Err(SceneError::AtlasMissing)
        } else {
            match at_key(value, "objects"@) {
                Json::Array(objects) => match objects_upto(objects@, objects@.len()) {
                    Err(e) => Err(e),
                    Ok(r) => match (r.floor, r.hub) {
                        (None, _) => Err(SceneError::NoTilemap),
                        (_, None) => Err(SceneError::NoHub),
                        (Some(terrain), Some(hub)) => match settings_upto(
                            at_key(value, "blackboard"@),
                            17,
                        ) {
                            Err(e) => Err(e),
                            Ok(s) => {
                                let scene = SceneModel {
                                    name: as_text(at_key(value, "name"@))->0,
                                    atlas,
                                    terrain,
                                    deposits: r.deposits,
                                    machines: r.machines,
                                    hub,
                                    inventory: seq![s[0] as u16, s[1] as u16, s[2] as u16, s[3] as u16, s[4] as u16],
                                    stock: seq![s[7] as u16, s[8] as u16, s[9] as u16, s[10] as u16, s[11] as u16, s[12] as u16],
                                    credits: s[13] as u32,
                                    first_order_amount: s[14] as u32,
                                    first_order_reward: s[15] as u32,
                                    world_seed: s[16],
                                };
                                match scene_game(scene) {
                                    Err(e) => Err(e),
                                    Ok(_) => Ok(scene),
                                }
                            },
                        },
                    },
                },
                _ => Err(SceneError::NoObjects),
            }
        }
    }
}

/// A tile's index from its column and row.
pub open spec fn tile_index(x: usize, y: usize) -> int {
    y * 22 + x
}

/// The floor with the first `n` deposits laid, refused where two share a cell.
pub open spec fn deposits_laid(tiles: Seq<TileModel>, ds: Seq<(usize, usize, Item)>, n: nat) -> Result<Seq<TileModel>, SceneError>
    decreases n,
{
    if n == 0 {
        Ok(tiles)
    } else {
        match deposits_laid(tiles, ds, (n - 1) as nat) {
            Err(e) => Err(e),
            Ok(t) => {
                let (x, y, item) = ds[n - 1];
                let i = tile_index(x, y);
                if t[i].deposit is Some {
                    Err(SceneError::DepositsOverlap(x, y))
                } else {
                    Ok(t.update(i, TileModel { deposit: Some(item), ..t[i] }))
                }
            },
        }
    }
}

/// The floor with the first `n` machines built, refused where two share a cell or a
/// miner stands on no ore.
pub open spec fn machines_built(tiles: Seq<TileModel>, ms: Seq<(usize, usize, Kind, Direction)>, n: nat) -> Result<Seq<TileModel>, SceneError>
    decreases n,
{
    if n == 0 {
        Ok(tiles)
    } else {
        match machines_built(tiles, ms, (n - 1) as nat) {
            Err(e) => Err(e),
            Ok(t) => {
                let (x, y, kind, d) = ms[n - 1];
                let i = tile_index(x, y);
                if t[i].building is Some {
                    Err(SceneError::BuildingsOverlap(x, y))
                } else if kind == Kind::Miner && t[i].deposit is None {
                    Err(SceneError::MinerOffOre(x, y))
                } else {
                    Ok(t.update(i, TileModel { building: Some(BuildingModel::fresh(kind, d)), ..t[i] }))
                }
            },
        }
    }
}

/// The notice a factory started from a scene shows.
pub open spec fn loaded_notice(name: Seq<char>) -> Seq<char> {
    name + " loaded. Build from the starter inventory or edit the scene in Bozzard."@
}

/// The new factory a scene starts: its floor, deposits, hub facing west and machines, with
/// the scene's inventory, credits and first contract, and nothing yet delivered.
pub open spec fn scene_game(s: SceneModel) -> Result<GameModel, SceneError> {
    let empty = Seq::new(330, |i: int| TileModel { deposit: None, building: None });
    match deposits_laid(empty, s.deposits, s.deposits.len()) {
        Err(e) => Err(e),
        Ok(t) => {
            let h = tile_index(s.hub.0, s.hub.1);
            if t[h].deposit is Some {
                Err(SceneError::HubOnDeposit)
            } else {
                let with_hub = t.update(
                    h,
                    TileModel { building: Some(BuildingModel::fresh(Kind::Hub, Direction::West)), ..t[h] },
                );
                match machines_built(with_hub, s.machines, s.machines.len()) {
                    Err(e) => Err(e),
                    Ok(tiles) => Ok(
                        GameModel {
                            tiles,
                            terrain: s.terrain,
                            hub: seq![s.hub.0, s.hub.1],
                            buildings: s.inventory,
                            stock: s.stock,
                            delivered: seq![0u32, 0u32, 0u32, 0u32, 0u32, 0u32],
                            produced: seq![0u32, 0u32, 0u32, 0u32, 0u32, 0u32],
                            credits: s.credits,
                            order_index: 0,
                            order_progress: 0,
                            first_order_amount: s.first_order_amount,
                            first_order_reward: s.first_order_reward,
                            ticks: 0,
                            placed: s.machines.len() as u32,
                            paused: false,
                            notice: loaded_notice(s.name),
                        },
                    ),
                }
            }
        },
    }
}

proof fn lemma_cells_fail(cells: Seq<Json>, n: nat, m: nat)
    requires
        n <= m,
        cells_upto(cells, n) is Err,
    ensures
        cells_upto(cells, m) == cells_upto(cells, n),
    decreases m - n,
{
    if n < m {
        lemma_cells_fail(cells, n, (m - 1) as nat);
    }
}

proof fn lemma_objects_fail(objects: Seq<Json>, n: nat, m: nat)
    requires
        n <= m,
        objects_upto(objects, n) is Err,
    ensures
        objects_upto(objects, m) == objects_upto(objects, n),
    decreases m - n,
{
    if n < m {
        lemma_objects_fail(objects, n, (m - 1) as nat);
    }
}

proof fn lemma_settings_fail(board: Json, n: nat, m: nat)
    requires
        n <= m,
        settings_upto(board, n) is Err,
    ensures
        settings_upto(board, m) == settings_upto(board, n),
    decreases m - n,
{
    if n < m {
        lemma_settings_fail(board, n, (m - 1) as nat);
    }
}

proof fn lemma_deposits_fail(tiles: Seq<TileModel>, ds: Seq<(usize, usize, Item)>, n: nat, m: nat)
    requires
        n <= m,
        deposits_laid(tiles, ds, n) is Err,
    ensures
        deposits_laid(tiles, ds, m) == deposits_laid(tiles, ds, n),
    decreases m - n,
{
    if n < m {
        lemma_deposits_fail(tiles, ds, n, (m - 1) as nat);
    }
}

proof fn lemma_machines_fail(tiles: Seq<TileModel>, ms: Seq<(usize, usize, Kind, Direction)>, n: nat, m: nat)
    requires
        n <= m,
        machines_built(tiles, ms, n) is Err,
    ensures
        machines_built(tiles, ms, m) == machines_built(tiles, ms, n),
    decreases m - n,
{
    if n < m {
        lemma_machines_fail(tiles, ms, n, (m - 1) as nat);
    }
}

/// A scene read from its JSON document.
pub struct SceneSource {
    pub name: String,
    /// The sprites image, relative to the scene's folder.
    pub atlas: String,
    pub terrain: Vec<u8>,
    pub deposits: Vec<(usize, usize, Item)>,
    pub machines: Vec<(usize, usize, Kind, Direction)>,
    pub hub: (usize, usize),
    pub inventory: [u16; 5],
    pub stock: [u16; 6],
    pub credits: u32,
    pub first_order_amount: u32,
    pub first_order_reward: u32,
    pub world_seed: u64,
}

impl View for SceneSource {
    type V = SceneModel;

    open spec fn view(&self) -> SceneModel {
        SceneModel {
            name: self.name@,
            atlas: self.atlas@,
            terrain: self.terrain@,
            deposits: self.deposits@,
            machines: self.machines@,
            hub: self.hub,
            inventory: self.inventory@,
            stock: self.stock@,
            credits: self.credits,
            first_order_amount: self.first_order_amount,
            first_order_reward: self.first_order_reward,
            world_seed: self.world_seed,
        }
    }
}

impl SceneModel {
    /// Every cell the scene names lies on the floor, and the floor has all its cells.
    pub open spec fn wf(self) -> bool {
        &&& self.terrain.len() == 330
        &&& self.inventory.len() == 5
        &&& self.stock.len() == 6
        &&& self.hub.0 < 22 && self.hub.1 < 15
        &&& forall|i: int| 0 <= i < self.deposits.len() ==> (#[trigger] self.deposits[i]).0 < 22 && self.deposits[i].1 < 15
        &&& forall|i: int| 0 <= i < self.machines.len() ==> (#[trigger] self.machines[i]).0 < 22 && self.machines[i].1 < 15
            && self.machines[i].2 != Kind::Hub
    }
}

/// A scene result as the rules see it.
pub open spec fn scene_result(r: Result<SceneSource, SceneError>) -> Result<SceneModel, SceneError> {
    match r {
        Ok(s) => Ok(s@),
        Err(e) => Err(e),
    }
}

/// The header checks and the sprites image a scene names.
fn read_header(value: &Json) -> (r: Result<String, SceneError>)
    ensures
        match r {
            Ok(a) => scene_atlas_of(*value) == Ok::<Seq<char>, SceneError>(a@),
            Err(e) => scene_atlas_of(*value) == Err::<Seq<char>, SceneError>(e),
        },
{
    let null = Json::Null;
    match key_of(value, "version", &null) {
        Json::UInt(1) => {},
        _ => return Err(SceneError::Version),
    }
    match key_of(key_of(value, "views", &null), "2d", &null) {
        Json::Text(_) => {},
        _ => return Err(SceneError::NoCamera),
    }
    match key_of(value, "name", &null) {
        Json::Text(_) => {},
        _ => return Err(SceneError::NoName),
    }
    let sprites = key_of(key_of(value, "assets", &null), "sprites", &null);
    let path = match key_of(sprites, "path", &null) {
        Json::Text(p) => p,
        _ => return Err(SceneError::NoSprites),
    };
    if !text_is(key_of(sprites, "kind", &null), "image") {
        return Err(SceneError::SpritesNotImage);
    }
    Ok(path.clone())
}

/// The sprites image a scene text names, once its header checks out; the caller checks
/// that the image is on disk before reading the whole scene.
pub fn scene_atlas(text: &str) -> (r: Result<String, SceneError>)
    ensures
        match json_parsed(text@) {
            None => r == Err::<String, SceneError>(SceneError::NotJson),
            Some(v) => match r {
                Ok(a) => scene_atlas_of(v) == Ok::<Seq<char>, SceneError>(a@),
                Err(e) => scene_atlas_of(v) == Err::<Seq<char>, SceneError>(e),
            },
        },
{
    match parse_json(text) {
        None => Err(SceneError::NotJson),
        Some(v) => read_header(&v),
    }
}

/// The floor of a tilemap object.
fn read_tilemap(map: &Json) -> (r: Result<Vec<u8>, SceneError>)
    ensures
        match r {
            Ok(t) => tilemap_floor(*map) == Ok::<Seq<u8>, SceneError>(t@),
            Err(e) => tilemap_floor(*map) == Err::<Seq<u8>, SceneError>(e),
        },
{
    let null = Json::Null;
    if !text_is(key_of(map, "image", &null), "sprites") {
        return Err(SceneError::TilemapNotSprites);
    }
    let sized = match key_of(map, "dimensions", &null) {
        Json::Array(d) => d.len() == 2 && (match &d[0] {
            Json::UInt(w) => *w == 22,
            _ => false,
        }) && (match &d[1] {
            Json::UInt(h) => *h == 15,
            _ => false,
        }),
        _ => false,
    };
    if !sized {
        return Err(SceneError::TilemapSize);
    }
    let cells = match key_of(map, "cells", &null) {
        Json::Array(c) => c,
        _ => return Err(SceneError::NoCells),
    };
    if cells.len() != 330 {
        return Err(SceneError::CellCount);
    }
    let mut terrain: Vec<u8> = Vec::new();
    let mut i: usize = 0;
    while i < cells.len()
        invariant
            i <= cells@.len(),
            cells@.len() == 330,
            tilemap_floor(*map) == cells_upto(cells@, 330),
            cells_upto(cells@, i as nat) == Ok::<Seq<u8>, SceneError>(terrain@),
        decreases cells@.len() - i,
    {
        let frame = match &cells[i] {
            Json::UInt(c) => *c,
            _ => {
                proof {
                    lemma_cells_fail(cells@, (i + 1) as nat, 330);
                }
                return Err(SceneError::CellNotInteger);
            },
        };
        if frame > 100 {
            proof {
                lemma_cells_fail(cells@, (i + 1) as nat, 330);
            }
            return Err(SceneError::CellOutOfAtlas);
        }
        terrain.push(if frame == 0 { 255 } else { (frame - 1) as u8 });
        i += 1;
    }
    Ok(terrain)
}

/// The floor cell an object's sprite stands on (see `object_cell`), if any.
pub fn sprite_cell(object: &Json) -> (r: Result<Option<(usize, usize)>, SceneError>)
    ensures
        match object_cell(*object) {
            Ok(Some(c)) => r == Ok::<Option<(usize, usize)>, SceneError>(Some((c.0 as usize, c.1 as usize)))
                && 0 <= c.0 < 22 && 0 <= c.1 < 15,
            Ok(None) => r == Ok::<Option<(usize, usize)>, SceneError>(None),
            Err(e) => r == Err::<Option<(usize, usize)>, SceneError>(e),
        },
{
    let null = Json::Null;
    let t = key_of(key_of(object, "transform", &null), "translation", &null);
    let (x, y) = match t {
        Json::Array(items) => (
            if items.len() > 0 { &items[0] } else { &null },
            if items.len() > 1 { &items[1] } else { &null },
        ),
        _ => (&null, &null),
    };
    match x {
        Json::UInt(_) | Json::Int(_) | Json::Float(_) => {},
        _ => return Err(SceneError::NoX),
    }
    match y {
        Json::UInt(_) | Json::Int(_) | Json::Float(_) => {},
        _ => return Err(SceneError::NoY),
    }
    match (scaled_number(x), scaled_number(y)) {
        (Some(sx), Some(sy)) => {
            let ghost vx = exact_value(*x)->0;
            let ghost vy = exact_value(*y)->0;
            Ok(cell_from_scaled(sx, sy, Ghost(vx), Ghost(vy)))
        },
        _ => Err(SceneError::PositionNotFinite),
    }
}

/// What the objects have given so far.
struct Found {
    floor: Option<Vec<u8>>,
    deposits: Vec<(usize, usize, Item)>,
    machines: Vec<(usize, usize, Kind, Direction)>,
    hub: Option<(usize, usize)>,
}

impl View for Found {
    type V = ObjectsRead;

    closed spec fn view(&self) -> ObjectsRead {
        ObjectsRead {
            floor: match self.floor {
                Some(t) => Some(t@),
                None => None,
            },
            deposits: self.deposits@,
            machines: self.machines@,
            hub: self.hub,
        }
    }
}

/// Whether every cell named so far lies on the floor.
spec fn found_on_floor(r: ObjectsRead) -> bool {
    &&& r.floor matches Some(t) ==> t.len() == 330
    &&& r.hub matches Some(h) ==> h.0 < 22 && h.1 < 15
    &&& forall|i: int| 0 <= i < r.deposits.len() ==> (#[trigger] r.deposits[i]).0 < 22 && r.deposits[i].1 < 15
    &&& forall|i: int| 0 <= i < r.machines.len() ==> (#[trigger] r.machines[i]).0 < 22 && r.machines[i].1 < 15
        && r.machines[i].2 != Kind::Hub
}

proof fn lemma_cells_len(cells: Seq<Json>, n: nat)
    requires
        cells_upto(cells, n) is Ok,
    ensures
        cells_upto(cells, n)->Ok_0.len() == n,
    decreases n,
{
    if n > 0 {
        lemma_cells_len(cells, (n - 1) as nat);
    }
}

/// Reads one more object into `found`.
fn read_one(found: &mut Found, object: &Json, index: usize) -> (r: Result<(), SceneError>)
    requires
        found_on_floor(old(found)@),
    ensures
        match read_object(old(found)@, *object, index as int) {
            Ok(next) => r is Ok && final(found)@ == next && found_on_floor(next),
            Err(e) => r == Err::<(), SceneError>(e),
        },
{
    let null = Json::Null;
    if member_of(object, "tilemap").is_some() {
        if found.floor.is_some() {
            return Err(SceneError::TwoTilemaps);
        }
        let floor = read_tilemap(key_of(object, "tilemap", &null))?;
        proof {
            lemma_cells_len(match at_key(at_key(*object, "tilemap"@), "cells"@) { Json::Array(c) => c@, _ => seq![] }, 330);
        }
        found.floor = Some(floor);
    }
    let ghost r1 = found@;
    let sprite = match member_of(object, "sprite") {
        Some(s) => s,
        None => return Ok(()),
    };
    if !text_is(key_of(sprite, "image", &null), "sprites") {
        return Ok(());
    }
    let frame = match key_of(sprite, "frame", &null) {
        Json::UInt(f) => *f,
        _ => return Ok(()),
    };
    if !((6 <= frame && frame <= 13) || (17 <= frame && frame <= 19)) {
        return Ok(());
    }
    let cell = sprite_cell(object)?;
    let (x, y) = match cell {
        None => {
            if frame <= 10 || frame >= 18 {
                return Ok(());
            } else {
                return Err(SceneError::OffFloor(index));
            }
        },
        Some(c) => c,
    };
    if frame == 17 {
        return Ok(());
    }
    if frame <= 10 || frame >= 18 {
        let rotation = {
            let degrees = key_of(key_of(object, "transform", &null), "rotation_degrees", &null);
            match degrees {
                Json::Array(items) => if items.len() > 2 { &items[2] } else { &null },
                _ => &null,
            }
        };
        let turns = match turns_of(rotation) {
            Some(t) => t,
            None => return Err(SceneError::RotationNotFinite),
        };
        if frame >= 18 {
            return Ok(());
        }
        let kind = if frame == 6 {
            Kind::Miner
        } else if frame == 7 {
            Kind::Furnace
        } else if frame == 8 {
            Kind::Assembler
        } else if frame == 9 {
            Kind::Belt
        } else {
            Kind::Splitter
        };
        let direction = if turns == 0 {
            Direction::East
        } else if turns == 1 {
            Direction::North
        } else if turns == 2 {
            Direction::West
        } else {
            Direction::South
        };
        found.machines.push((x, y, kind, direction));
    } else if frame == 11 {
        if found.hub.is_some() {
            return Err(SceneError::TwoHubs);
        }
        found.hub = Some((x, y));
    } else {
        found.deposits.push((x, y, if frame == 12 { Item::IronOre } else { Item::CopperOre }));
    }
    Ok(())
}

/// Reads blackboard setting `i`.
fn read_setting(board: &Json, i: usize) -> (r: Result<u64, SceneError>)
    requires
        i < SETTINGS,
    ensures
        r == setting_of(*board, i as int),
{
    let null = Json::Null;
    let key = setting_key(i);
    let max = setting_limit(i);
    match member_of(board, key) {
        None => {
            let d: u64 = if i <= 2 {
                2
            } else if i == 3 {
                24
            } else if i == 4 {
                2
            } else if i <= 6 {
                0
            } else if i <= 8 {
                4
            } else if i <= 12 {
                0
            } else if i == 13 {
                4
            } else if i == 14 {
                8
            } else if i == 15 {
                16
            } else {
                0
            };
            Ok(d)
        },
        Some(entry) => match read_whole(key_of(key_of(entry, "scalar", &null), "number", &null), max) {
            Reading::Value(n) => Ok(n),
            Reading::NotNumber => Err(SceneError::NotNumeric(i)),
            Reading::OutOfRange => Err(SceneError::OutOfRange(i)),
        },
    }
}

proof fn lemma_settings_len(board: Json, n: nat)
    requires
        settings_upto(board, n) is Ok,
    ensures
        settings_upto(board, n)->Ok_0.len() == n,
        forall|i: int| 0 <= i < n ==> #[trigger] settings_upto(board, n)->Ok_0[i] <= setting_max(i),
    decreases n,
{
    if n > 0 {
        lemma_settings_len(board, (n - 1) as nat);
        let prev = settings_upto(board, (n - 1) as nat)->Ok_0;
        let cur = settings_upto(board, n)->Ok_0;
        assert forall|i: int| 0 <= i < n implies #[trigger] cur[i] <= setting_max(i) by {
            if i < n - 1 {
                assert(cur[i] == prev[i]);
            } else {
                lemma_setting_bound(board, i);
            }
        }
    }
}

proof fn lemma_setting_bound(board: Json, i: int)
    requires
        setting_of(board, i) is Ok,
    ensures
        setting_of(board, i)->Ok_0 <= setting_max(i),
{
    match member(board, setting_name(i)) {
        None => {},
        Some(entry) => {
            let j = at_key(at_key(entry, "scalar"@), "number"@);
            match exact_value(j) {
                Some(v) => {
                    let d = vstd::arithmetic::power2::pow2(v.1) as int;
                    vstd::arithmetic::power2::lemma_pow2_pos(v.1);
                    if v.0 >= 0 {
                        assert(v.0 / d >= 0) by (nonlinear_arith)
                            requires
                                v.0 >= 0,
                                d > 0,
                        ;
                    }
                },
                None => {},
            }
        },
    }
}

/// The scene a JSON document describes, given whether its sprites image is on disk.
pub fn scene_from_json(value: &Json, atlas_exists: bool) -> (r: Result<SceneSource, SceneError>)
    ensures
        scene_result(r) == scene_of(*value, atlas_exists),
        r matches Ok(s) ==> s@.wf(),
{
    let null = Json::Null;
    let atlas = read_header(value)?;
    if !atlas_exists {
        return Err(SceneError::AtlasMissing);
    }
    let objects = match key_of(value, "objects", &null) {
        Json::Array(o) => o,
        _ => return Err(SceneError::NoObjects),
    };
    let mut found = Found { floor: None, deposits: Vec::new(), machines: Vec::new(), hub: None };
    let mut i: usize = 0;
    while i < objects.len()
        invariant
            i <= objects@.len(),
            scene_atlas_of(*value) == Ok::<Seq<char>, SceneError>(atlas@),
            atlas_exists,
            at_key(*value, "objects"@) == Json::Array(*objects),
            objects_upto(objects@, i as nat) == Ok::<ObjectsRead, SceneError>(found@),
            found_on_floor(found@),
        decreases objects@.len() - i,
    {
        match read_one(&mut found, &objects[i], i) {
            Ok(()) => {},
            Err(e) => {
                proof {
                    lemma_objects_fail(objects@, (i + 1) as nat, objects@.len());
                }
                return Err(e);
            },
        }
        i += 1;
    }
    let ghost found_view = found@;
    let terrain = match found.floor {
        Some(t) => t,
        None => return Err(SceneError::NoTilemap),
    };
    let hub = match found.hub {
        Some(h) => h,
        None => return Err(SceneError::NoHub),
    };
    let board = key_of(value, "blackboard", &null);
    let mut values: Vec<u64> = Vec::new();
    let mut k: usize = 0;
    while k < SETTINGS
        invariant
            k <= SETTINGS,
            scene_atlas_of(*value) == Ok::<Seq<char>, SceneError>(atlas@),
            atlas_exists,
            at_key(*value, "objects"@) == Json::Array(*objects),
            objects_upto(objects@, objects@.len()) == Ok::<ObjectsRead, SceneError>(found_view),
            found_view.floor == Some(terrain@),
            found_view.hub == Some(hub),
            *board == at_key(*value, "blackboard"@),
            settings_upto(*board, k as nat) == Ok::<Seq<u64>, SceneError>(values@),
        decreases SETTINGS - k,
    {
        proof {
            lemma_settings_len(*board, k as nat);
        }
        if k == 15 && values[14] == 0 {
            proof {
                lemma_settings_fail(*board, 16, 17);
            }
            return Err(SceneError::FirstOrderZero);
        }
        let v = match read_setting(board, k) {
            Ok(v) => v,
            Err(e) => {
                proof {
                    lemma_settings_fail(*board, (k + 1) as nat, 17);
                }
                return Err(e);
            },
        };
        values.push(v);
        k += 1;
    }
    proof {
        lemma_settings_len(*board, 17);
    }
    let name = match key_of(value, "name", &null) {
        Json::Text(n) => n.clone(),
        _ => String::new(),
    };
    let source = SceneSource {
        name,
        atlas,
        terrain,
        deposits: found.deposits,
        machines: found.machines,
        hub,
        inventory: [values[0] as u16, values[1] as u16, values[2] as u16, values[3] as u16, values[4] as u16],
        stock: [values[7] as u16, values[8] as u16, values[9] as u16, values[10] as u16, values[11] as u16, values[12] as u16],
        credits: values[13] as u32,
        first_order_amount: values[14] as u32,
        first_order_reward: values[15] as u32,
        world_seed: values[16],
    };
    assert(source@.inventory =~= seq![values@[0] as u16, values@[1] as u16, values@[2] as u16, values@[3] as u16, values@[4] as u16]);
    assert(source@.stock =~= seq![values@[7] as u16, values@[8] as u16, values@[9] as u16, values@[10] as u16, values@[11] as u16, values@[12] as u16]);
    new_game_from_scene(&source)?;
    Ok(source)
}

/// The scene a scene text describes, given whether its sprites image is on disk.
pub fn scene_source(text: &str, atlas_exists: bool) -> (r: Result<SceneSource, SceneError>)
    ensures
        match json_parsed(text@) {
            None => r == Err::<SceneSource, SceneError>(SceneError::NotJson),
            Some(v) => scene_result(r) == scene_of(v, atlas_exists),
        },
        r matches Ok(s) ==> s@.wf(),
{
    match parse_json(text) {
        None => Err(SceneError::NotJson),
        Some(v) => scene_from_json(&v, atlas_exists),
    }
}

/// A game result as the rules see it.
pub open spec fn game_result(r: Result<Game, SceneError>) -> Result<GameModel, SceneError> {
    match r {
        Ok(g) => Ok(g@),
        Err(e) => Err(e),
    }
}

/// The new factory a scene starts (see `scene_game`).
pub fn new_game_from_scene(s: &SceneSource) -> (r: Result<Game, SceneError>)
    requires
        s@.wf(),
    ensures
        game_result(r) == scene_game(s@),
{
    let mut tiles: Vec<Tile> = Vec::new();
    let mut i: usize = 0;
    while i < 330
        invariant
            i <= 330,
            tiles@.len() == i,
            forall|j: int| 0 <= j < i ==> (#[trigger] tiles@[j]).deposit is None && tiles@[j].building is None,
        decreases 330 - i,
    {
        tiles.push(Tile { deposit: None, building: None });
        i += 1;
    }
    assert(tiles@.map_values(|t: Tile| t@) =~= Seq::new(330, |j: int| TileModel { deposit: None, building: None }));
    let ghost empty = Seq::new(330, |j: int| TileModel { deposit: None, building: None });
    let mut d: usize = 0;
    while d < s.deposits.len()
        invariant
            s@.wf(),
            empty == Seq::new(330, |j: int| TileModel { deposit: None, building: None }),
            d <= s.deposits@.len(),
            tiles@.len() == 330,
            deposits_laid(empty, s.deposits@, d as nat) == Ok::<Seq<TileModel>, SceneError>(tiles@.map_values(|t: Tile| t@)),
        decreases s.deposits@.len() - d,
    {
        let (x, y, item) = s.deposits[d];
        assert(s.deposits@[d as int].0 < 22 && s.deposits@[d as int].1 < 15);
        let at = y * 22 + x;
        assert(tiles@[at as int]@ == tiles@.map_values(|t: Tile| t@)[at as int]);
        if tiles[at].deposit.is_some() {
            proof {
                lemma_deposits_fail(empty, s.deposits@, (d + 1) as nat, s.deposits@.len());
            }
            return Err(SceneError::DepositsOverlap(x, y));
        }
        let ghost before = tiles@.map_values(|t: Tile| t@);
        let building = tiles[at].building;
        tiles.set(at, Tile { deposit: Some(item), building });
        assert(tiles@.map_values(|t: Tile| t@) =~= before.update(at as int, TileModel { deposit: Some(item), ..before[at as int] }));
        d += 1;
    }
    let at = s.hub.1 * 22 + s.hub.0;
    assert(tiles@[at as int]@ == tiles@.map_values(|t: Tile| t@)[at as int]);
    assert(deposits_laid(empty, s.deposits@, s.deposits@.len()) == Ok::<Seq<TileModel>, SceneError>(tiles@.map_values(|t: Tile| t@)));
    if tiles[at].deposit.is_some() {
        return Err(SceneError::HubOnDeposit);
    }
    let ghost laid = tiles@.map_values(|t: Tile| t@);
    let deposit = tiles[at].deposit;
    tiles.set(at, Tile { deposit, building: Some(Building::new(Kind::Hub, Direction::West)) });
    let ghost with_hub = laid.update(at as int, TileModel { building: Some(BuildingModel::fresh(Kind::Hub, Direction::West)), ..laid[at as int] });
    assert(tiles@.map_values(|t: Tile| t@) =~= with_hub);
    let mut m: usize = 0;
    while m < s.machines.len()
        invariant
            s@.wf(),
            empty == Seq::new(330, |j: int| TileModel { deposit: None, building: None }),
            deposits_laid(empty, s.deposits@, s.deposits@.len()) == Ok::<Seq<TileModel>, SceneError>(laid),
            laid[tile_index(s.hub.0, s.hub.1)].deposit is None,
            with_hub == laid.update(tile_index(s.hub.0, s.hub.1), TileModel { building: Some(BuildingModel::fresh(Kind::Hub, Direction::West)), ..laid[tile_index(s.hub.0, s.hub.1)] }),
            m <= s.machines@.len(),
            tiles@.len() == 330,
            machines_built(with_hub, s.machines@, m as nat) == Ok::<Seq<TileModel>, SceneError>(tiles@.map_values(|t: Tile| t@)),
        decreases s.machines@.len() - m,
    {
        let (x, y, kind, direction) = s.machines[m];
        assert(s.machines@[m as int].0 < 22 && s.machines@[m as int].1 < 15);
        let at = y * 22 + x;
        assert(tiles@[at as int]@ == tiles@.map_values(|t: Tile| t@)[at as int]);
        if tiles[at].building.is_some() {
            proof {
                lemma_machines_fail(with_hub, s.machines@, (m + 1) as nat, s.machines@.len());
            }
            return Err(SceneError::BuildingsOverlap(x, y));
        }
        if kind == Kind::Miner && tiles[at].deposit.is_none() {
            proof {
                lemma_machines_fail(with_hub, s.machines@, (m + 1) as nat, s.machines@.len());
            }
            return Err(SceneError::MinerOffOre(x, y));
        }
        let ghost before = tiles@.map_values(|t: Tile| t@);
        let deposit = tiles[at].deposit;
        tiles.set(at, Tile { deposit, building: Some(Building::new(kind, direction)) });
        assert(tiles@.map_values(|t: Tile| t@) =~= before.update(at as int, TileModel { building: Some(BuildingModel::fresh(kind, direction)), ..before[at as int] }));
        m += 1;
    }
    let mut notice = s.name.clone();
    notice.append(" loaded. Build from the starter inventory or edit the scene in Bozzard.");
    let game = Game {
        tiles,
        terrain: s.terrain.clone(),
        hub: [s.hub.0, s.hub.1],
        buildings: s.inventory,
        stock: s.stock,
        delivered: [0, 0, 0, 0, 0, 0],
        produced: [0, 0, 0, 0, 0, 0],
        credits: s.credits,
        order_index: 0,
        order_progress: 0,
        first_order_amount: s.first_order_amount,
        first_order_reward: s.first_order_reward,
        ticks: 0,
        placed: s.machines.len() as u32,
        paused: false,
        notice,
    };
    assert(game@.hub =~= seq![s.hub.0, s.hub.1]);
    assert(game@.delivered =~= seq![0u32, 0u32, 0u32, 0u32, 0u32, 0u32]);
    assert(game@.produced =~= seq![0u32, 0u32, 0u32, 0u32, 0u32, 0u32]);
    Ok(game)
}

proof fn lemma_deposits_laid(tiles: Seq<TileModel>, ds: Seq<(usize, usize, Item)>, n: nat, t: Seq<TileModel>)
    requires
        tiles.len() == 330,
        n <= ds.len(),
        forall|d: int| 0 <= d < ds.len() ==> (#[trigger] ds[d]).0 < 22 && ds[d].1 < 15,
        deposits_laid(tiles, ds, n) == Ok::<Seq<TileModel>, SceneError>(t),
    ensures
        t.len() == 330,
        forall|d: int| 0 <= d < n ==> #[trigger] t[tile_index(ds[d].0, ds[d].1)].deposit == Some(ds[d].2),
        forall|i: int| 0 <= i < 330 ==> #[trigger] t[i].building == tiles[i].building,
    decreases n,
{
    if n > 0 {
        let prev = deposits_laid(tiles, ds, (n - 1) as nat)->Ok_0;
        lemma_deposits_laid(tiles, ds, (n - 1) as nat, prev);
        let (x, y, item) = ds[n - 1];
        let i = tile_index(x, y);
        assert forall|d: int| 0 <= d < n implies #[trigger] t[tile_index(ds[d].0, ds[d].1)].deposit == Some(ds[d].2) by {
            if d < n - 1 {
                let j = tile_index(ds[d].0, ds[d].1);
                assert(prev[j].deposit is Some);
            }
        }
    }
}

proof fn lemma_machines_built(tiles: Seq<TileModel>, ms: Seq<(usize, usize, Kind, Direction)>, n: nat, t: Seq<TileModel>)
    requires
        tiles.len() == 330,
        n <= ms.len(),
        forall|m: int| 0 <= m < ms.len() ==> (#[trigger] ms[m]).0 < 22 && ms[m].1 < 15 && ms[m].2 != Kind::Hub,
        machines_built(tiles, ms, n) == Ok::<Seq<TileModel>, SceneError>(t),
    ensures
        t.len() == 330,
        forall|m: int| 0 <= m < n ==> #[trigger] t[tile_index(ms[m].0, ms[m].1)].building == Some(BuildingModel::fresh(ms[m].2, ms[m].3)),
        forall|i: int| 0 <= i < 330 ==> #[trigger] t[i].deposit == tiles[i].deposit,
        forall|i: int| 0 <= i < 330 && tiles[i].building is Some ==> #[trigger] t[i].building == tiles[i].building,
        forall|i: int| 0 <= i < 330 && tiles[i].building is None ==> (#[trigger] t[i].building matches Some(b) ==> b.kind != Kind::Hub),
    decreases n,
{
    if n > 0 {
        let prev = machines_built(tiles, ms, (n - 1) as nat)->Ok_0;
        lemma_machines_built(tiles, ms, (n - 1) as nat, prev);
        let (x, y, kind, d) = ms[n - 1];
        let i = tile_index(x, y);
        assert forall|m: int| 0 <= m < n implies #[trigger] t[tile_index(ms[m].0, ms[m].1)].building == Some(BuildingModel::fresh(ms[m].2, ms[m].3)) by {
            if m < n - 1 {
                let j = tile_index(ms[m].0, ms[m].1);
                assert(prev[j].building is Some);
            }
        }
    }
}

/// The factory a scene starts holds what the scene lists: the hub where the scene puts it,
/// facing west, and no other hub; every listed deposit and machine at its cell; and the
/// scene's inventory, stock, credits and first contract.
pub proof fn lemma_scene_game_holds_the_scene(s: SceneModel)
    requires
        s.wf(),
        scene_game(s) is Ok,
    ensures
        ({
            let g = scene_game(s)->Ok_0;
            let h = tile_index(s.hub.0, s.hub.1);
            &&& g.hub == seq![s.hub.0, s.hub.1]
            &&& g.tiles[h].building == Some(BuildingModel::fresh(Kind::Hub, Direction::West))
            &&& forall|i: int| 0 <= i < 330 && i != h ==> (#[trigger] g.tiles[i].building matches Some(b) ==> b.kind != Kind::Hub)
            &&& forall|m: int| 0 <= m < s.machines.len() ==> #[trigger] g.tiles[tile_index(s.machines[m].0, s.machines[m].1)].building
                == Some(BuildingModel::fresh(s.machines[m].2, s.machines[m].3))
            &&& forall|d: int| 0 <= d < s.deposits.len() ==> #[trigger] g.tiles[tile_index(s.deposits[d].0, s.deposits[d].1)].deposit
                == Some(s.deposits[d].2)
            &&& g.buildings == s.inventory
            &&& g.stock == s.stock
            &&& g.credits == s.credits
            &&& g.first_order_amount == s.first_order_amount
            &&& g.first_order_reward == s.first_order_reward
        }),
{
    let empty = Seq::new(330, |i: int| TileModel { deposit: None, building: None });
    let t = deposits_laid(empty, s.deposits, s.deposits.len())->Ok_0;
    lemma_deposits_laid(empty, s.deposits, s.deposits.len(), t);
    let h = tile_index(s.hub.0, s.hub.1);
    let with_hub = t.update(h, TileModel { building: Some(BuildingModel::fresh(Kind::Hub, Direction::West)), ..t[h] });
    let tiles = machines_built(with_hub, s.machines, s.machines.len())->Ok_0;
    lemma_machines_built(with_hub, s.machines, s.machines.len(), tiles);
    assert forall|i: int| 0 <= i < 330 && i != h implies (#[trigger] tiles[i].building matches Some(b) ==> b.kind != Kind::Hub) by {
        assert(with_hub[i].building == empty[i].building);
    }
    assert forall|d: int| 0 <= d < s.deposits.len() implies #[trigger] tiles[tile_index(s.deposits[d].0, s.deposits[d].1)].deposit
        == Some(s.deposits[d].2) by {
        let j = tile_index(s.deposits[d].0, s.deposits[d].1);
        assert(t[j].deposit == Some(s.deposits[d].2));
        assert(with_hub[j].deposit == t[j].deposit);
    }
}

} // verus!
