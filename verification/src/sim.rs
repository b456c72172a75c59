//! Deterministic, fixed-tick factory rules. No UI or Steam dependency lives here.
use vstd::prelude::*;

verus! {

/// Width of the factory floor in tiles.
pub const WIDTH: usize = 22;

/// Height of the factory floor in tiles.
pub const HEIGHT: usize = 15;

const HUB_X: usize = 18;

const HUB_Y: usize = 7;

/// Number of tiles on the factory floor.
pub open spec fn tile_count() -> nat {
    330
}

/// The floor sprite used for the tile at `index`: a checkerboard of frames 14 and 15.
pub open spec fn terrain_frame(index: int) -> u8 {
    if (index % 22 + index / 22) % 2 == 0 {
        14
    } else {
        15
    }
}

/// The default checkerboard floor.
pub open spec fn default_terrain_model() -> Seq<u8> {
    Seq::new(tile_count(), |i: int| terrain_frame(i))
}

proof fn lemma_row_column(x: int, y: int)
    requires
        0 <= x < 22,
        0 <= y,
    ensures
        (y * 22 + x) % 22 == x,
        (y * 22 + x) / 22 == y,
{
    assert((y * 22 + x) % 22 == x && (y * 22 + x) / 22 == y) by (nonlinear_arith)
        requires
            0 <= x < 22,
            0 <= y,
    ;
}

/// The checkerboard floor, row by row.
pub fn default_terrain() -> (terrain: Vec<u8>)
    ensures
        terrain@ == default_terrain_model(),
{
    let mut terrain: Vec<u8> = Vec::new();
    let mut y: usize = 0;
    while y < HEIGHT
        invariant
            y <= HEIGHT,
            terrain@.len() == y * WIDTH,
            forall|i: int| 0 <= i < terrain@.len() ==> terrain@[i] == terrain_frame(i),
        decreases HEIGHT - y,
    {
        let mut x: usize = 0;
        while x < WIDTH
            invariant
                y < HEIGHT,
                x <= WIDTH,
                terrain@.len() == y * WIDTH + x,
                forall|i: int| 0 <= i < terrain@.len() ==> terrain@[i] == terrain_frame(i),
            decreases WIDTH - x,
        {
            proof {
                lemma_row_column(x as int, y as int);
            }
            terrain.push(if (x + y) % 2 == 0 {
                14
            } else {
                15
            });
            x += 1;
        }
        y += 1;
    }
    assert(terrain@ =~= default_terrain_model());
    terrain
}

/// The delivery hub's default location.
pub fn default_hub() -> (hub: [usize; 2])
    ensures
        hub@ == seq![18usize, 7usize],
{
    let hub = [HUB_X, HUB_Y];
    assert(hub@ =~= seq![18usize, 7usize]);
    hub
}

/// How many iron ingots the first contract asks for by default.
pub fn default_first_order_amount() -> (amount: u32)
    ensures
        amount == 8,
{
    8
}

/// How many credits the first contract pays by default.
pub fn default_first_order_reward() -> (reward: u32)
    ensures
        reward == 16,
{
    16
}

#[derive(Clone, Copy, Debug, PartialEq, Eq, Structural)]
pub enum Item {
    IronOre,
    CopperOre,
    IronBar,
    CopperBar,
    Gear,
    Circuit,
}

impl Item {
    /// Every item, in inventory order.
    pub const ALL: [Item; 6] = [
        Item::IronOre,
        Item::CopperOre,
        Item::IronBar,
        Item::CopperBar,
        Item::Gear,
        Item::Circuit,
    ];

    /// Position of the item in inventory order.
    pub open spec fn ordinal(self) -> int {
        match self {
            Item::IronOre => 0,
            Item::CopperOre => 1,
            Item::IronBar => 2,
            Item::CopperBar => 3,
            Item::Gear => 4,
            Item::Circuit => 5,
        }
    }

    /// The item's display name.
    pub open spec fn label(self) -> Seq<char> {
        match self {
            Item::IronOre => "Iron ore"@,
            Item::CopperOre => "Copper ore"@,
            Item::IronBar => "Iron ingot"@,
            Item::CopperBar => "Copper ingot"@,
            Item::Gear => "Gear"@,
            Item::Circuit => "Circuit"@,
        }
    }

    pub fn index(self) -> (index: usize)
        ensures
            index == self.ordinal(),
            index < 6,
    {
        match self {
            Item::IronOre => 0,
            Item::CopperOre => 1,
            Item::IronBar => 2,
            Item::CopperBar => 3,
            Item::Gear => 4,
            Item::Circuit => 5,
        }
    }

    pub fn name(self) -> (name: &'static str)
        ensures
            name@ == self.label(),
    {
        match self {
            Item::IronOre => "Iron ore",
            Item::CopperOre => "Copper ore",
            Item::IronBar => "Iron ingot",
            Item::CopperBar => "Copper ingot",
            Item::Gear => "Gear",
            Item::Circuit => "Circuit",
        }
    }

    /// The atlas frame of the item's icon.
    pub fn sprite(self) -> (frame: usize)
        ensures
            frame == self.ordinal(),
    {
        self.index()
    }
}

#[derive(Clone, Copy, Debug, PartialEq, Eq, Structural)]
pub enum Kind {
    Miner,
    Furnace,
    Assembler,
    Belt,
    Splitter,
    Hub,
}

impl Kind {
    /// The kinds a player can place or buy, in inventory order.
    pub const BUILDABLE: [Kind; 5] = [
        Kind::Miner,
        Kind::Furnace,
        Kind::Assembler,
        Kind::Belt,
        Kind::Splitter,
    ];

    /// Position of the kind in inventory order (the hub comes last).
    pub open spec fn ordinal(self) -> int {
        match self {
            Kind::Miner => 0,
            Kind::Furnace => 1,
            Kind::Assembler => 2,
            Kind::Belt => 3,
            Kind::Splitter => 4,
            Kind::Hub => 5,
        }
    }

    /// The building's display name.
    pub open spec fn label(self) -> Seq<char> {
        match self {
            Kind::Miner => "Miner"@,
            Kind::Furnace => "Furnace"@,
            Kind::Assembler => "Assembler"@,
            Kind::Belt => "Conveyor"@,
            Kind::Splitter => "Splitter"@,
            Kind::Hub => "Hub"@,
        }
    }

    /// Credits a purchase of this kind costs.
    pub open spec fn cost(self) -> u32 {
        match self {
            Kind::Miner => 8,
            Kind::Furnace => 7,
            Kind::Assembler => 12,
            Kind::Belt => 1,
            Kind::Splitter => 4,
            Kind::Hub => 0,
        }
    }

    pub fn index(self) -> (index: usize)
        ensures
            index == self.ordinal(),
            index < 6,
    {
        match self {
            Kind::Miner => 0,
            Kind::Furnace => 1,
            Kind::Assembler => 2,
            Kind::Belt => 3,
            Kind::Splitter => 4,
            Kind::Hub => 5,
        }
    }

    pub fn name(self) -> (name: &'static str)
        ensures
            name@ == self.label(),
    {
        match self {
            Kind::Miner => "Miner",
            Kind::Furnace => "Furnace",
            Kind::Assembler => "Assembler",
            Kind::Belt => "Conveyor",
            Kind::Splitter => "Splitter",
            Kind::Hub => "Hub",
        }
    }

    /// The atlas frame of the building's sprite: six frames after the item icons.
    pub fn sprite(self) -> (frame: usize)
        ensures
            frame == 6 + self.ordinal(),
    {
        6 + self.index()
    }

    pub fn price(self) -> (price: u32)
        ensures
            price == self.cost(),
    {
        match self {
            Kind::Miner => 8,
            Kind::Furnace => 7,
            Kind::Assembler => 12,
            Kind::Belt => 1,
            Kind::Splitter => 4,
            Kind::Hub => 0,
        }
    }
}

#[derive(Clone, Copy, Debug, PartialEq, Eq, Structural)]
pub enum Direction {
    North,
    East,
    South,
    West,
}

impl Direction {
    /// The direction a quarter turn clockwise.
    pub open spec fn turned(self) -> Direction {
        match self {
            Direction::North => Direction::East,
            Direction::East => Direction::South,
            Direction::South => Direction::West,
            Direction::West => Direction::North,
        }
    }

    /// The step on the grid: x grows to the east, y grows to the south.
    pub open spec fn step(self) -> (int, int) {
        match self {
            Direction::North => (0, -1),
            Direction::East => (1, 0),
            Direction::South => (0, 1),
            Direction::West => (-1, 0),
        }
    }

    /// The arrow shown for the direction.
    pub open spec fn arrow(self) -> Seq<char> {
        match self {
            Direction::North => "↑"@,
            Direction::East => "→"@,
            Direction::South => "↓"@,
            Direction::West => "←"@,
        }
    }

    pub fn next(self) -> (next: Direction)
        ensures
            next == self.turned(),
    {
        match self {
            Direction::North => Direction::East,
            Direction::East => Direction::South,
            Direction::South => Direction::West,
            Direction::West => Direction::North,
        }
    }

    pub fn delta(self) -> (delta: (isize, isize))
        ensures
            delta.0 == self.step().0,
            delta.1 == self.step().1,
    {
        match self {
            Direction::North => (0, -1),
            Direction::East => (1, 0),
            Direction::South => (0, 1),
            Direction::West => (-1, 0),
        }
    }

    pub fn glyph(self) -> (glyph: &'static str)
        ensures
            glyph@ == self.arrow(),
    {
        match self {
            Direction::North => "↑",
            Direction::East => "→",
            Direction::South => "↓",
            Direction::West => "←",
        }
    }
}

#[derive(Clone, Copy, Debug, PartialEq, Eq, Structural)]
pub enum Recipe {
    Gear,
    Circuit,
}

impl Recipe {
    /// The other recipe.
    pub open spec fn other(self) -> Recipe {
        match self {
            Recipe::Gear => Recipe::Circuit,
            Recipe::Circuit => Recipe::Gear,
        }
    }

    /// What the recipe makes.
    pub open spec fn product(self) -> Item {
        match self {
            Recipe::Gear => Item::Gear,
            Recipe::Circuit => Item::Circuit,
        }
    }

    pub fn next(self) -> (next: Recipe)
        ensures
            next == self.other(),
    {
        match self {
            Recipe::Gear => Recipe::Circuit,
            Recipe::Circuit => Recipe::Gear,
        }
    }

    pub fn item(self) -> (item: Item)
        ensures
            item == self.product(),
    {
        match self {
            Recipe::Gear => Item::Gear,
            Recipe::Circuit => Item::Circuit,
        }
    }
}

} // verus!

verus! {

/// The largest contract index whose amount and reward fit in a `u32`.
pub const ORDER_LIMIT: u32 = 536_870_909;

/// A building as the rules see it.
#[verifier::ext_equal]
pub struct BuildingModel {
    pub kind: Kind,
    pub direction: Direction,
    pub recipe: Recipe,
    pub input: Seq<u16>,
    pub output: Option<Item>,
    pub progress: u8,
    pub split_next: bool,
}

impl BuildingModel {
    /// A building just placed: gear recipe, nothing inside, no progress.
    pub open spec fn fresh(kind: Kind, direction: Direction) -> BuildingModel {
        BuildingModel {
            kind,
            direction,
            recipe: Recipe::Gear,
            input: seq![0u16, 0u16, 0u16, 0u16, 0u16, 0u16],
            output: None,
            progress: 0,
            split_next: false,
        }
    }

    /// Whether the building takes `item` right now.
    pub open spec fn takes(self, item: Item) -> bool {
        match self.kind {
            Kind::Furnace => (item == Item::IronOre || item == Item::CopperOre)
                && self.input[item.ordinal()] < 8,
            Kind::Assembler => (item == Item::IronBar || item == Item::CopperBar)
                && self.input[item.ordinal()] < 8,
            Kind::Belt | Kind::Splitter => self.output is None,
            Kind::Hub => true,
            Kind::Miner => false,
        }
    }
}

#[derive(Clone, Copy, Debug)]
pub struct Building {
    pub kind: Kind,
    pub direction: Direction,
    pub recipe: Recipe,
    pub input: [u16; 6],
    pub output: Option<Item>,
    pub progress: u8,
    pub split_next: bool,
}

impl View for Building {
    type V = BuildingModel;

    open spec fn view(&self) -> BuildingModel {
        BuildingModel {
            kind: self.kind,
            direction: self.direction,
            recipe: self.recipe,
            input: self.input@,
            output: self.output,
            progress: self.progress,
            split_next: self.split_next,
        }
    }
}

impl Building {
    pub fn new(kind: Kind, direction: Direction) -> (building: Building)
        ensures
            building@ == BuildingModel::fresh(kind, direction),
    {
        let building = Building {
            kind,
            direction,
            recipe: Recipe::Gear,
            input: [0u16, 0u16, 0u16, 0u16, 0u16, 0u16],
            output: None,
            progress: 0,
            split_next: false,
        };
        assert(building@.input =~= seq![0u16, 0u16, 0u16, 0u16, 0u16, 0u16]);
        building
    }

    pub(crate) fn accepts(&self, item: Item) -> (accepted: bool)
        ensures
            accepted == self@.takes(item),
    {
        match self.kind {
            Kind::Furnace => (item == Item::IronOre || item == Item::CopperOre)
                && self.input[item.index()] < 8,
            Kind::Assembler => (item == Item::IronBar || item == Item::CopperBar)
                && self.input[item.index()] < 8,
            Kind::Belt | Kind::Splitter => self.output.is_none(),
            Kind::Hub => true,
            Kind::Miner => false,
        }
    }
}

/// A tile as the rules see it.
#[verifier::ext_equal]
pub struct TileModel {
    pub deposit: Option<Item>,
    pub building: Option<BuildingModel>,
}

#[derive(Clone, Copy, Debug)]
pub struct Tile {
    pub deposit: Option<Item>,
    pub building: Option<Building>,
}

impl View for Tile {
    type V = TileModel;

    open spec fn view(&self) -> TileModel {
        TileModel {
            deposit: self.deposit,
            building: match self.building {
                Some(b) => Some(b@),
                None => None,
            },
        }
    }
}

impl Default for Tile {
    fn default() -> (tile: Tile)
        ensures
            tile.deposit is None,
            tile.building is None,
    {
        Tile { deposit: None, building: None }
    }
}

#[derive(Clone, Copy, Debug)]
pub struct Order {
    pub item: Item,
    pub amount: u32,
    pub reward: u32,
    pub bonus_belts: u16,
}

/// The contract with the given index. The first three are fixed (the first one's size and
/// reward come from the scene); after them gears and circuits alternate and grow.
pub open spec fn order_for(index: u32, first_amount: u32, first_reward: u32) -> Order {
    if index == 0 {
        Order { item: Item::IronBar, amount: first_amount, reward: first_reward, bonus_belts: 8 }
    } else if index == 1 {
        Order { item: Item::Gear, amount: 6, reward: 25, bonus_belts: 10 }
    } else if index == 2 {
        Order { item: Item::Circuit, amount: 5, reward: 35, bonus_belts: 12 }
    } else {
        Order {
            item: if index % 2 == 1 {
                Item::Gear
            } else {
                Item::Circuit
            },
            amount: (8 + (index - 3) * 3) as u32,
            reward: (20 + index * 8) as u32,
            bonus_belts: 6,
        }
    }
}

/// The grid cell at column `x`, row `y`, if it lies on the floor.
pub open spec fn cell(x: int, y: int) -> Option<usize> {
    if 0 <= x < 22 && 0 <= y < 15 {
        Some((y * 22 + x) as usize)
    } else {
        None
    }
}

/// The cell one step from `index` in direction `d`, if it lies on the floor.
pub open spec fn neighbor(index: int, d: Direction) -> Option<usize> {
    cell(index % 22 + d.step().0, index / 22 + d.step().1)
}

/// What a building makes this tick, given the deposit under it: the building afterwards
/// and the item it finished, if any.
pub open spec fn work(b: BuildingModel, deposit: Option<Item>) -> (BuildingModel, Option<Item>) {
    if b.output is Some {
        (b, None)
    } else {
        match b.kind {
            Kind::Miner => match deposit {
                Some(item) => if b.progress + 1 >= 4 {
                    (BuildingModel { progress: 0, output: Some(item), ..b }, Some(item))
                } else {
                    (BuildingModel { progress: (b.progress + 1) as u8, ..b }, None)
                },
                None => (b, None),
            },
            Kind::Furnace => {
                let ore = if b.input[0] > 0 {
                    Some(Item::IronOre)
                } else if b.input[1] > 0 {
                    Some(Item::CopperOre)
                } else {
                    None
                };
                match ore {
                    Some(ore) => if b.progress + 1 >= 3 {
                        let out = if ore == Item::IronOre {
                            Item::IronBar
                        } else {
                            Item::CopperBar
                        };
                        (
                            BuildingModel {
                                progress: 0,
                                input: b.input.update(
                                    ore.ordinal(),
                                    (b.input[ore.ordinal()] - 1) as u16,
                                ),
                                output: Some(out),
                                ..b
                            },
                            Some(out),
                        )
                    } else {
                        (BuildingModel { progress: (b.progress + 1) as u8, ..b }, None)
                    },
                    None => (b, None),
                }
            },
            Kind::Assembler => {
                let iron = b.input[2];
                let copper = b.input[3];
                let ready = match b.recipe {
                    Recipe::Gear => iron >= 2,
                    Recipe::Circuit => iron >= 1 && copper >= 1,
                };
                if !ready {
                    (b, None)
                } else if b.progress + 1 >= 5 {
                    let used = match b.recipe {
                        Recipe::Gear => 2int,
                        Recipe::Circuit => 1int,
                    };
                    let after_iron = b.input.update(2, (iron - used) as u16);
                    let input = if b.recipe == Recipe::Circuit {
                        after_iron.update(3, (copper - 1) as u16)
                    } else {
                        after_iron
                    };
                    let out = b.recipe.product();
                    (BuildingModel { progress: 0, input, output: Some(out), ..b }, Some(out))
                } else {
                    (BuildingModel { progress: (b.progress + 1) as u8, ..b }, None)
                }
            },
            _ => (b, None),
        }
    }
}

/// A tile after its building worked for one tick, and the item finished there.
pub open spec fn worked(t: TileModel) -> (TileModel, Option<Item>) {
    match t.building {
        None => (t, None),
        Some(b) => {
            let (after, out) = work(b, t.deposit);
            (TileModel { building: Some(after), ..t }, out)
        },
    }
}

/// How many of the first `n` tiles finish an item with inventory position `k` this tick.
pub open spec fn finished_count(tiles: Seq<TileModel>, k: int, n: nat) -> nat
    decreases n,
{
    if n == 0 {
        0
    } else {
        finished_count(tiles, k, (n - 1) as nat) + match worked(tiles[n - 1]).1 {
            Some(item) => if item.ordinal() == k {
                1nat
            } else {
                0nat
            },
            None => 0nat,
        }
    }
}

/// Keeps a value in `u16`, stopping at the top.
pub open spec fn saturate(v: int) -> u16 {
    if v > u16::MAX {
        u16::MAX
    } else {
        v as u16
    }
}

/// The whole factory as the rules see it.
#[verifier::ext_equal]
pub struct GameModel {
    pub tiles: Seq<TileModel>,
    pub terrain: Seq<u8>,
    pub hub: Seq<usize>,
    pub buildings: Seq<u16>,
    pub stock: Seq<u16>,
    pub delivered: Seq<u32>,
    pub produced: Seq<u32>,
    pub credits: u32,
    pub order_index: u32,
    pub order_progress: u32,
    pub first_order_amount: u32,
    pub first_order_reward: u32,
    pub ticks: u64,
    pub placed: u32,
    pub paused: bool,
    pub notice: Seq<char>,
}

} // verus!

verus! {

impl GameModel {
    /// The floor has its full size, and every inventory has one slot per kind or item.
    pub open spec fn wf(self) -> bool {
        &&& self.tiles.len() == tile_count()
        &&& self.hub.len() == 2
        &&& self.buildings.len() == 5
        &&& self.stock.len() == 6
        &&& self.delivered.len() == 6
        &&& self.produced.len() == 6
    }

    /// The current contract.
    pub open spec fn order(self) -> Order {
        order_for(self.order_index, self.first_order_amount, self.first_order_reward)
    }

    /// The factory with tile `i`'s building replaced by `b`.
    pub open spec fn with_building(self, i: int, b: BuildingModel) -> GameModel {
        GameModel {
            tiles: self.tiles.update(i, TileModel { building: Some(b), ..self.tiles[i] }),
            ..self
        }
    }

    /// A hand-made or belt-carried `item` arriving at the hub.
    pub open spec fn deliver(self, item: Item) -> GameModel {
        let g = GameModel {
            delivered: self.delivered.update(
                item.ordinal(),
                (self.delivered[item.ordinal()] + 1) as u32,
            ),
            ..self
        };
        let order = g.order();
        if order.item == item {
            let progress = (g.order_progress + 1) as u32;
            if progress >= order.amount {
                let next_index = (g.order_index + 1) as u32;
                GameModel {
                    order_index: next_index,
                    order_progress: 0,
                    credits: (g.credits + order.reward) as u32,
                    buildings: g.buildings.update(3, (g.buildings[3] + order.bonus_belts) as u16),
                    notice: "Order complete! +"@ + crate::text::decimal(order.reward as nat)
                        + " credits, +"@ + crate::text::decimal(order.bonus_belts as nat)
                        + " conveyors. Next: "@ + order_for(
                        next_index,
                        g.first_order_amount,
                        g.first_order_reward,
                    ).item.label() + "."@,
                    ..g
                }
            } else {
                GameModel { order_progress: progress, ..g }
            }
        } else {
            g
        }
    }

    /// `item` arriving at the building on tile `index`.
    pub open spec fn receive(self, index: int, item: Item) -> GameModel {
        match self.tiles[index].building {
            None => self,
            Some(b) => match b.kind {
                Kind::Hub => self.deliver(item),
                Kind::Furnace | Kind::Assembler => self.with_building(
                    index,
                    BuildingModel {
                        input: b.input.update(
                            item.ordinal(),
                            (b.input[item.ordinal()] + 1) as u16,
                        ),
                        ..b
                    },
                ),
                Kind::Belt | Kind::Splitter => self.with_building(
                    index,
                    BuildingModel { output: Some(item), ..b },
                ),
                Kind::Miner => self,
            },
        }
    }

    /// No counter overflows when `item` is delivered to the hub.
    pub open spec fn hub_fits(self, item: Item) -> bool {
        &&& self.delivered[item.ordinal()] < u32::MAX
        &&& self.order_index <= ORDER_LIMIT
        &&& self.order().item == item ==> {
            &&& self.order_progress < u32::MAX
            &&& self.order_progress + 1 >= self.order().amount ==> {
                &&& self.order_index < ORDER_LIMIT
                &&& self.credits + self.order().reward <= u32::MAX
                &&& self.buildings[3] + self.order().bonus_belts <= u16::MAX
            }
        }
    }

    /// No counter overflows when `item` arrives at tile `index`.
    pub open spec fn receive_fits(self, index: int, item: Item) -> bool {
        match self.tiles[index].building {
            None => true,
            Some(b) => match b.kind {
                Kind::Hub => self.hub_fits(item),
                Kind::Furnace | Kind::Assembler => b.input[item.ordinal()] < u16::MAX,
                _ => true,
            },
        }
    }

    /// Why placing `kind` at (`x`, `y`) is refused, if it is.
    pub open spec fn place_refusal(self, x: int, y: int, kind: Kind) -> Option<Seq<char>> {
        match cell(x, y) {
            None => Some("Outside the factory"@),
            Some(i) => if kind == Kind::Hub {
                Some("The hub is fixed"@)
            } else if self.tiles[i as int].building is Some {
                Some("That tile is occupied"@)
            } else if kind == Kind::Miner && self.tiles[i as int].deposit is None {
                Some("Miners need an ore deposit"@)
            } else if self.buildings[kind.ordinal()] == 0 {
                Some("No buildings left. Buy another in Inventory."@)
            } else {
                None
            },
        }
    }

    /// A successful placement does not overflow the placement count.
    pub open spec fn place_fits(self, x: int, y: int, kind: Kind) -> bool {
        self.place_refusal(x, y, kind) is None ==> self.placed < u32::MAX
    }

    /// The factory after placing `kind` facing `d` at (`x`, `y`).
    pub open spec fn placed_at(self, x: int, y: int, kind: Kind, d: Direction) -> GameModel {
        let i = cell(x, y)->0 as int;
        GameModel {
            buildings: self.buildings.update(
                kind.ordinal(),
                (self.buildings[kind.ordinal()] - 1) as u16,
            ),
            tiles: self.tiles.update(
                i,
                TileModel { building: Some(BuildingModel::fresh(kind, d)), ..self.tiles[i] },
            ),
            placed: (self.placed + 1) as u32,
            notice: kind.label() + " placed. Outputs travel "@ + d.arrow() + "."@,
            ..self
        }
    }

    /// Why removing the building at (`x`, `y`) is refused, if it is.
    pub open spec fn remove_refusal(self, x: int, y: int) -> Option<Seq<char>> {
        match cell(x, y) {
            None => Some("Outside the factory"@),
            Some(i) => match self.tiles[i as int].building {
                None => Some("Nothing to remove"@),
                Some(b) => if b.kind == Kind::Hub {
                    Some("The delivery hub stays in place"@)
                } else {
                    None
                },
            },
        }
    }

    /// A successful removal does not overflow the inventory of that kind.
    pub open spec fn remove_fits(self, x: int, y: int) -> bool {
        self.remove_refusal(x, y) is None ==> self.buildings[self.tiles[cell(
            x,
            y,
        )->0 as int].building->0.kind.ordinal()] < u16::MAX
    }

    /// The factory after recovering the building at (`x`, `y`) with everything inside it.
    pub open spec fn removed_at(self, x: int, y: int) -> GameModel {
        let i = cell(x, y)->0 as int;
        let b = self.tiles[i].building->0;
        let refunded = Seq::new(6, |k: int| saturate(self.stock[k] + b.input[k]));
        GameModel {
            tiles: self.tiles.update(i, TileModel { building: None, ..self.tiles[i] }),
            buildings: self.buildings.update(
                b.kind.ordinal(),
                (self.buildings[b.kind.ordinal()] + 1) as u16,
            ),
            stock: match b.output {
                Some(item) => refunded.update(
                    item.ordinal(),
                    saturate(refunded[item.ordinal()] + 1),
                ),
                None => refunded,
            },
            notice: b.kind.label() + " recovered to inventory."@,
            ..self
        }
    }

    /// Why buying `kind` is refused, if it is.
    pub open spec fn buy_refusal(self, kind: Kind) -> Option<Seq<char>> {
        if kind == Kind::Hub {
            Some("The hub cannot be purchased"@)
        } else if self.credits < kind.cost() {
            Some("Not enough credits. Complete an order to earn more."@)
        } else {
            None
        }
    }

    /// A successful purchase does not overflow the inventory of that kind.
    pub open spec fn buy_fits(self, kind: Kind) -> bool {
        self.buy_refusal(kind) is None ==> self.buildings[kind.ordinal()] < u16::MAX
    }

    /// The factory after buying one `kind`.
    pub open spec fn bought(self, kind: Kind) -> GameModel {
        GameModel {
            credits: (self.credits - kind.cost()) as u32,
            buildings: self.buildings.update(
                kind.ordinal(),
                (self.buildings[kind.ordinal()] + 1) as u16,
            ),
            notice: "Purchased one "@ + kind.label() + "."@,
            ..self
        }
    }

    /// Why loading `item` by hand at (`x`, `y`) is refused, if it is.
    pub open spec fn inject_refusal(self, x: int, y: int, item: Item) -> Option<Seq<char>> {
        match cell(x, y) {
            None => Some("Outside the factory"@),
            Some(i) => if self.stock[item.ordinal()] == 0 {
                Some("No item in inventory"@)
            } else if !(self.tiles[i as int].building matches Some(b) && b.takes(item)) {
                Some("That building cannot take this item"@)
            } else {
                None
            },
        }
    }

    /// A successful hand delivery does not overflow any counter.
    pub open spec fn inject_fits(self, x: int, y: int, item: Item) -> bool {
        self.inject_refusal(x, y, item) is None ==> self.receive_fits(cell(x, y)->0 as int, item)
    }

    /// The factory after loading `item` from the inventory into the building at (`x`, `y`).
    pub open spec fn injected(self, x: int, y: int, item: Item) -> GameModel {
        let i = cell(x, y)->0 as int;
        let taken = GameModel {
            stock: self.stock.update(item.ordinal(), (self.stock[item.ordinal()] - 1) as u16),
            ..self
        };
        GameModel { notice: "Loaded "@ + item.label() + " by hand."@, ..taken.receive(i, item) }
    }

    /// Why picking up the finished item at (`x`, `y`) is refused, if it is.
    pub open spec fn take_refusal(self, x: int, y: int) -> Option<Seq<char>> {
        match cell(x, y) {
            None => Some("Outside the factory"@),
            Some(i) => if self.tiles[i as int].building matches Some(b) && b.output is Some {
                None
            } else {
                Some("No finished item here"@)
            },
        }
    }

    /// The factory after moving the finished item at (`x`, `y`) into the inventory.
    pub open spec fn taken(self, x: int, y: int) -> GameModel {
        let i = cell(x, y)->0 as int;
        let b = self.tiles[i].building->0;
        let item = b.output->0;
        GameModel {
            stock: self.stock.update(item.ordinal(), saturate(self.stock[item.ordinal()] + 1)),
            notice: "Picked up "@ + item.label()
                + ". Select it in Inventory to load or deliver."@,
            ..self.with_building(i, BuildingModel { output: None, ..b })
        }
    }

    /// Why turning the building at (`x`, `y`) is refused, if it is.
    pub open spec fn rotate_refusal(self, x: int, y: int) -> Option<Seq<char>> {
        match cell(x, y) {
            None => Some("Outside the factory"@),
            Some(i) => match self.tiles[i as int].building {
                None => Some("Nothing to rotate"@),
                Some(b) => if b.kind == Kind::Hub {
                    Some("The hub cannot rotate"@)
                } else {
                    None
                },
            },
        }
    }

    /// The factory after turning the building at (`x`, `y`) a quarter turn clockwise.
    pub open spec fn rotated(self, x: int, y: int) -> GameModel {
        let i = cell(x, y)->0 as int;
        let b = self.tiles[i].building->0;
        self.with_building(i, BuildingModel { direction: b.direction.turned(), ..b })
    }

    /// Why switching the recipe at (`x`, `y`) is refused, if it is.
    pub open spec fn recipe_refusal(self, x: int, y: int) -> Option<Seq<char>> {
        match cell(x, y) {
            None => Some("Outside the factory"@),
            Some(i) => match self.tiles[i as int].building {
                None => Some("No assembler here"@),
                Some(b) => if b.kind != Kind::Assembler {
                    Some("Only assemblers have recipes"@)
                } else {
                    None
                },
            },
        }
    }

    /// The factory after switching the assembler at (`x`, `y`) to its other recipe, which
    /// restarts its progress.
    pub open spec fn recipe_switched(self, x: int, y: int) -> GameModel {
        let i = cell(x, y)->0 as int;
        let b = self.tiles[i].building->0;
        GameModel {
            notice: "Assembler set to "@ + b.recipe.other().product().label() + "."@,
            ..self.with_building(i, BuildingModel { recipe: b.recipe.other(), progress: 0, ..b })
        }
    }
}

} // verus!

verus! {

/// The tile at `index` of a new factory: four ore deposits and the delivery hub.
pub open spec fn starting_tile(index: int) -> TileModel {
    TileModel {
        deposit: if index == 7 * 22 + 4 || index == 3 * 22 + 5 {
            Some(Item::IronOre)
        } else if index == 11 * 22 + 4 || index == 12 * 22 + 8 {
            Some(Item::CopperOre)
        } else {
            None
        },
        building: if index == 7 * 22 + 18 {
            Some(BuildingModel::fresh(Kind::Hub, Direction::West))
        } else {
            None
        },
    }
}

/// A new factory.
pub open spec fn starting_model() -> GameModel {
    GameModel {
        tiles: Seq::new(tile_count(), |i: int| starting_tile(i)),
        terrain: default_terrain_model(),
        hub: seq![18usize, 7usize],
        buildings: seq![2u16, 2u16, 2u16, 24u16, 2u16],
        stock: seq![4u16, 4u16, 0u16, 0u16, 0u16, 0u16],
        delivered: seq![0u32, 0u32, 0u32, 0u32, 0u32, 0u32],
        produced: seq![0u32, 0u32, 0u32, 0u32, 0u32, 0u32],
        credits: 4,
        order_index: 0,
        order_progress: 0,
        first_order_amount: 8,
        first_order_reward: 16,
        ticks: 0,
        placed: 0,
        paused: false,
        notice: "Place a miner on the iron deposit, then connect it to a furnace."@,
    }
}

#[derive(Clone, Debug)]
pub struct Game {
    pub tiles: Vec<Tile>,
    pub terrain: Vec<u8>,
    pub hub: [usize; 2],
    pub buildings: [u16; 5],
    pub stock: [u16; 6],
    pub delivered: [u32; 6],
    pub produced: [u32; 6],
    pub credits: u32,
    pub order_index: u32,
    pub order_progress: u32,
    pub first_order_amount: u32,
    pub first_order_reward: u32,
    pub ticks: u64,
    pub placed: u32,
    pub paused: bool,
    pub notice: String,
}

impl View for Game {
    type V = GameModel;

    open spec fn view(&self) -> GameModel {
        GameModel {
            tiles: self.tiles@.map_values(|t: Tile| t@),
            terrain: self.terrain@,
            hub: self.hub@,
            buildings: self.buildings@,
            stock: self.stock@,
            delivered: self.delivered@,
            produced: self.produced@,
            credits: self.credits,
            order_index: self.order_index,
            order_progress: self.order_progress,
            first_order_amount: self.first_order_amount,
            first_order_reward: self.first_order_reward,
            ticks: self.ticks,
            placed: self.placed,
            paused: self.paused,
            notice: self.notice@,
        }
    }
}

impl Default for Game {
    fn default() -> (game: Game)
        ensures
            game@ == starting_model(),
    {
        Game::new()
    }
}

impl Game {
    pub fn new() -> (game: Game)
        ensures
            game@ == starting_model(),
    {
        let mut tiles: Vec<Tile> = Vec::new();
        let mut i: usize = 0;
        while i < WIDTH * HEIGHT
            invariant
                i <= WIDTH * HEIGHT,
                tiles@.len() == i,
                forall|j: int| 0 <= j < i ==> (#[trigger] tiles@[j]).deposit is None && tiles@[j].building is None,
            decreases WIDTH * HEIGHT - i,
        {
            tiles.push(Tile::default());
            i += 1;
        }
        tiles[7 * WIDTH + 4].deposit = Some(Item::IronOre);
        tiles[3 * WIDTH + 5].deposit = Some(Item::IronOre);
        tiles[11 * WIDTH + 4].deposit = Some(Item::CopperOre);
        tiles[12 * WIDTH + 8].deposit = Some(Item::CopperOre);
        tiles[HUB_Y * WIDTH + HUB_X].building = Some(Building::new(Kind::Hub, Direction::West));
        let mut notice = String::new();
        notice.append("Place a miner on the iron deposit, then connect it to a furnace.");
        let game = Game {
            tiles,
            terrain: default_terrain(),
            hub: default_hub(),
            buildings: [2, 2, 2, 24, 2],
            stock: [4, 4, 0, 0, 0, 0],
            delivered: [0, 0, 0, 0, 0, 0],
            produced: [0, 0, 0, 0, 0, 0],
            credits: 4,
            order_index: 0,
            order_progress: 0,
            first_order_amount: default_first_order_amount(),
            first_order_reward: default_first_order_reward(),
            ticks: 0,
            placed: 0,
            paused: false,
            notice,
        };
        assert(game@.tiles =~= starting_model().tiles);
        assert(game@.buildings =~= starting_model().buildings);
        assert(game@.stock =~= starting_model().stock);
        assert(game@.delivered =~= starting_model().delivered);
        assert(game@.produced =~= starting_model().produced);
        game
    }

    pub fn index(x: usize, y: usize) -> (index: Option<usize>)
        ensures
            index == cell(x as int, y as int),
    {
        if x < WIDTH && y < HEIGHT {
            Some(y * WIDTH + x)
        } else {
            None
        }
    }

    pub fn order(&self) -> (order: Order)
        requires
            self.order_index <= ORDER_LIMIT,
        ensures
            order == self@.order(),
    {
        match self.order_index {
            0 => Order {
                item: Item::IronBar,
                amount: self.first_order_amount,
                reward: self.first_order_reward,
                bonus_belts: 8,
            },
            1 => Order { item: Item::Gear, amount: 6, reward: 25, bonus_belts: 10 },
            2 => Order { item: Item::Circuit, amount: 5, reward: 35, bonus_belts: 12 },
            n => Order {
                item: if n % 2 == 1 {
                    Item::Gear
                } else {
                    Item::Circuit
                },
                amount: 8 + (n - 3) * 3,
                reward: 20 + n * 8,
                bonus_belts: 6,
            },
        }
    }
}


impl Game {
    pub fn place(&mut self, x: usize, y: usize, kind: Kind, dir: Direction) -> (result: Result<
        (),
        &'static str,
    >)
        requires
            old(self)@.wf(),
            old(self)@.place_fits(x as int, y as int, kind),
        ensures
            match old(self)@.place_refusal(x as int, y as int, kind) {
                Some(message) => result matches Err(e) && e@ == message && final(self)@ == old(
                    self,
                )@,
                None => result is Ok && final(self)@ == old(self)@.placed_at(
                    x as int,
                    y as int,
                    kind,
                    dir,
                ),
            },
    {
        let index = match Self::index(x, y) {
            Some(index) => index,
            None => return Err("Outside the factory"),
        };
        if kind == Kind::Hub {
            return Err("The hub is fixed");
        }
        if self.tiles[index].building.is_some() {
            return Err("That tile is occupied");
        }
        if kind == Kind::Miner && self.tiles[index].deposit.is_none() {
            return Err("Miners need an ore deposit");
        }
        if self.buildings[kind.index()] == 0 {
            return Err("No buildings left. Buy another in Inventory.");
        }
        let ghost before = self@;
        self.buildings[kind.index()] -= 1;
        self.tiles[index].building = Some(Building::new(kind, dir));
        self.placed += 1;
        let mut notice = String::from_str(kind.name());
        notice.append(" placed. Outputs travel ");
        notice.append(dir.glyph());
        notice.append(".");
        self.notice = notice;
        assert(self@.tiles =~= before.placed_at(x as int, y as int, kind, dir).tiles);
        assert(self@.buildings =~= before.placed_at(x as int, y as int, kind, dir).buildings);
        Ok(())
    }

    pub fn remove(&mut self, x: usize, y: usize) -> (result: Result<(), &'static str>)
        requires
            old(self)@.wf(),
            old(self)@.remove_fits(x as int, y as int),
        ensures
            match old(self)@.remove_refusal(x as int, y as int) {
                Some(message) => result matches Err(e) && e@ == message && final(self)@ == old(
                    self,
                )@,
                None => result is Ok && final(self)@ == old(self)@.removed_at(x as int, y as int),
            },
    {
        let index = match Self::index(x, y) {
            Some(index) => index,
            None => return Err("Outside the factory"),
        };
        let building = match self.tiles[index].building {
            Some(building) => building,
            None => return Err("Nothing to remove"),
        };
        if building.kind == Kind::Hub {
            return Err("The delivery hub stays in place");
        }
        let ghost before = self@;
        self.tiles[index].building = None;
        self.buildings[building.kind.index()] += 1;
        let mut k: usize = 0;
        while k < 6
            invariant
                k <= 6,
                self@.tiles == before.tiles.update(
                    index as int,
                    TileModel { building: None, ..before.tiles[index as int] },
                ),
                self@.buildings == before.buildings.update(
                    building.kind.ordinal(),
                    (before.buildings[building.kind.ordinal()] + 1) as u16,
                ),
                self@.notice == before.notice,
                building@ == before.tiles[index as int].building->0,
                forall|j: int|
                    0 <= j < 6 ==> #[trigger] self.stock@[j] == if j < k {
                        saturate(before.stock[j] + building.input@[j])
                    } else {
                        before.stock[j]
                    },
                self@ == (GameModel { tiles: self@.tiles, buildings: self@.buildings, stock: self@.stock, ..before }),
            decreases 6 - k,
        {
            let item = Item::ALL[k];
            assert(item.ordinal() == k);
            self.stock[item.index()] = self.stock[item.index()].saturating_add(
                building.input[item.index()],
            );
            k += 1;
        }
        if let Some(item) = building.output {
            self.stock[item.index()] = self.stock[item.index()].saturating_add(1);
        }
        let mut notice = String::from_str(building.kind.name());
        notice.append(" recovered to inventory.");
        self.notice = notice;
        assert(self@.stock =~= before.removed_at(x as int, y as int).stock);
        Ok(())
    }

    pub fn buy(&mut self, kind: Kind) -> (result: Result<(), &'static str>)
        requires
            old(self)@.buy_fits(kind),
        ensures
            match old(self)@.buy_refusal(kind) {
                Some(message) => result matches Err(e) && e@ == message && final(self)@ == old(
                    self,
                )@,
                None => result is Ok && final(self)@ == old(self)@.bought(kind),
            },
    {
        if kind == Kind::Hub {
            return Err("The hub cannot be purchased");
        }
        if self.credits < kind.price() {
            return Err("Not enough credits. Complete an order to earn more.");
        }
        let ghost before = self@;
        self.credits -= kind.price();
        self.buildings[kind.index()] += 1;
        let mut notice = String::from_str("Purchased one ");
        notice.append(kind.name());
        notice.append(".");
        self.notice = notice;
        assert(self@.buildings =~= before.bought(kind).buildings);
        Ok(())
    }

    pub fn take_output(&mut self, x: usize, y: usize) -> (result: Result<(), &'static str>)
        requires
            old(self)@.wf(),
        ensures
            match old(self)@.take_refusal(x as int, y as int) {
                Some(message) => result matches Err(e) && e@ == message && final(self)@ == old(
                    self,
                )@,
                None => result is Ok && final(self)@ == old(self)@.taken(x as int, y as int),
            },
    {
        let index = match Self::index(x, y) {
            Some(index) => index,
            None => return Err("Outside the factory"),
        };
        let mut building = match self.tiles[index].building {
            Some(building) => building,
            None => return Err("No finished item here"),
        };
        let item = match building.output {
            Some(item) => item,
            None => return Err("No finished item here"),
        };
        let ghost before = self@;
        building.output = None;
        self.tiles[index].building = Some(building);
        self.stock[item.index()] = self.stock[item.index()].saturating_add(1);
        let mut notice = String::from_str("Picked up ");
        notice.append(item.name());
        notice.append(". Select it in Inventory to load or deliver.");
        self.notice = notice;
        assert(self@.tiles =~= before.taken(x as int, y as int).tiles);
        assert(self@.stock =~= before.taken(x as int, y as int).stock);
        Ok(())
    }

    pub fn rotate(&mut self, x: usize, y: usize) -> (result: Result<(), &'static str>)
        requires
            old(self)@.wf(),
        ensures
            match old(self)@.rotate_refusal(x as int, y as int) {
                Some(message) => result matches Err(e) && e@ == message && final(self)@ == old(
                    self,
                )@,
                None => result is Ok && final(self)@ == old(self)@.rotated(x as int, y as int),
            },
    {
        let index = match Self::index(x, y) {
            Some(index) => index,
            None => return Err("Outside the factory"),
        };
        let mut b = match self.tiles[index].building {
            Some(b) => b,
            None => return Err("Nothing to rotate"),
        };
        if b.kind == Kind::Hub {
            return Err("The hub cannot rotate");
        }
        let ghost before = self@;
        b.direction = b.direction.next();
        self.tiles[index].building = Some(b);
        assert(self@.tiles =~= before.rotated(x as int, y as int).tiles);
        Ok(())
    }

    pub fn set_recipe(&mut self, x: usize, y: usize) -> (result: Result<(), &'static str>)
        requires
            old(self)@.wf(),
        ensures
            match old(self)@.recipe_refusal(x as int, y as int) {
                Some(message) => result matches Err(e) && e@ == message && final(self)@ == old(
                    self,
                )@,
                None => result is Ok && final(self)@ == old(self)@.recipe_switched(
                    x as int,
                    y as int,
                ),
            },
    {
        let index = match Self::index(x, y) {
            Some(index) => index,
            None => return Err("Outside the factory"),
        };
        let mut b = match self.tiles[index].building {
            Some(b) => b,
            None => return Err("No assembler here"),
        };
        if b.kind != Kind::Assembler {
            return Err("Only assemblers have recipes");
        }
        let ghost before = self@;
        b.recipe = b.recipe.next();
        b.progress = 0;
        self.tiles[index].building = Some(b);
        let mut notice = String::from_str("Assembler set to ");
        notice.append(b.recipe.item().name());
        notice.append(".");
        self.notice = notice;
        assert(self@.tiles =~= before.recipe_switched(x as int, y as int).tiles);
        Ok(())
    }
}


impl Game {
    fn next(&self, index: usize, direction: Direction) -> (next: Option<usize>)
        ensures
            next == neighbor(index as int, direction),
    {
        let x = index % WIDTH;
        let y = index / WIDTH;
        let (dx, dy) = direction.delta();
        let nx = match x.checked_add_signed(dx) {
            Some(nx) => nx,
            None => return None,
        };
        let ny = match y.checked_add_signed(dy) {
            Some(ny) => ny,
            None => return None,
        };
        Self::index(nx, ny)
    }

    fn accept(&mut self, index: usize, item: Item)
        requires
            old(self)@.wf(),
            index < tile_count(),
            old(self)@.tiles[index as int].building is Some,
            old(self)@.receive_fits(index as int, item),
        ensures
            final(self)@ == old(self)@.receive(index as int, item),
    {
        let ghost before = self@;
        let mut b = self.tiles[index].building.unwrap();
        match b.kind {
            Kind::Hub => {
                self.delivered[item.index()] += 1;
                let ghost delivered = self@;
                assert(delivered.order() == before.order());
                if self.order().item == item {
                    self.order_progress += 1;
                    let order = self.order();
                    if self.order_progress >= order.amount {
                        self.order_index += 1;
                        self.order_progress = 0;
                        self.credits += order.reward;
                        self.buildings[Kind::Belt.index()] += order.bonus_belts;
                        let mut notice = String::from_str("Order complete! +");
                        crate::text::append_decimal(&mut notice, order.reward as u64);
                        notice.append(" credits, +");
                        crate::text::append_decimal(&mut notice, order.bonus_belts as u64);
                        notice.append(" conveyors. Next: ");
                        notice.append(self.order().item.name());
                        notice.append(".");
                        self.notice = notice;
                        assert(self@.buildings =~= before.receive(index as int, item).buildings);
                    }
                }
                assert(self@.delivered =~= before.receive(index as int, item).delivered);
            },
            Kind::Furnace | Kind::Assembler => {
                b.input[item.index()] += 1;
                self.tiles[index].building = Some(b);
                assert(self@.tiles =~= before.receive(index as int, item).tiles);
            },
            Kind::Belt | Kind::Splitter => {
                b.output = Some(item);
                self.tiles[index].building = Some(b);
                assert(self@.tiles =~= before.receive(index as int, item).tiles);
            },
            Kind::Miner => {},
        }
    }

    /// Whether the hub taking `item` overflows no counter.
    fn hub_fits_now(&self, item: Item) -> (fits: bool)
        requires
            self@.wf(),
        ensures
            fits == self@.hub_fits(item),
    {
        if self.delivered[item.index()] == u32::MAX || self.order_index > ORDER_LIMIT {
            return false;
        }
        let order = self.order();
        if order.item != item {
            return true;
        }
        if self.order_progress == u32::MAX {
            return false;
        }
        if self.order_progress + 1 >= order.amount {
            self.order_index < ORDER_LIMIT && self.credits as u64 + order.reward as u64
                <= u32::MAX as u64 && self.buildings[3] as u32 + order.bonus_belts as u32
                <= u16::MAX as u32
        } else {
            true
        }
    }

    /// Whether `item` arriving at tile `index` overflows no counter.
    pub(crate) fn receive_fits_now(&self, index: usize, item: Item) -> (fits: bool)
        requires
            self@.wf(),
            index < tile_count(),
        ensures
            fits == self@.receive_fits(index as int, item),
    {
        match self.tiles[index].building {
            None => true,
            Some(b) => match b.kind {
                Kind::Hub => self.hub_fits_now(item),
                Kind::Furnace | Kind::Assembler => b.input[item.index()] < u16::MAX,
                _ => true,
            },
        }
    }

    pub fn inject(&mut self, x: usize, y: usize, item: Item) -> (result: Result<(), &'static str>)
        requires
            old(self)@.wf(),
            old(self)@.inject_fits(x as int, y as int, item),
        ensures
            match old(self)@.inject_refusal(x as int, y as int, item) {
                Some(message) => result matches Err(e) && e@ == message && final(self)@ == old(
                    self,
                )@,
                None => result is Ok && final(self)@ == old(self)@.injected(
                    x as int,
                    y as int,
                    item,
                ),
            },
    {
        let index = match Self::index(x, y) {
            Some(index) => index,
            None => return Err("Outside the factory"),
        };
        if self.stock[item.index()] == 0 {
            return Err("No item in inventory");
        }
        let accepted = match &self.tiles[index].building {
            Some(b) => b.accepts(item),
            None => false,
        };
        if !accepted {
            return Err("That building cannot take this item");
        }
        let ghost before = self@;
        self.stock[item.index()] -= 1;
        let ghost taken = self@;
        assert(taken == GameModel {
            stock: before.stock.update(item.ordinal(), (before.stock[item.ordinal()] - 1) as u16),
            ..before
        });
        self.accept(index, item);
        let mut notice = String::from_str("Loaded ");
        notice.append(item.name());
        notice.append(" by hand.");
        self.notice = notice;
        Ok(())
    }
}


/// The credits one contract completion can pay, at most, within one tick of a factory whose
/// contract index is `order_index` and whose first reward is `first_reward`.
pub open spec fn reward_bound(order_index: u32, first_reward: u32) -> int {
    first_reward + 35 + 8 * (order_index + 330)
}

impl GameModel {
    /// Where `item` leaving tile `from` in direction `d` would go: the neighbouring tile,
    /// if it exists and its building takes the item.
    pub open spec fn target(self, from: int, d: Direction, item: Item) -> Option<usize> {
        match neighbor(from, d) {
            Some(to) => match self.tiles[to as int].building {
                Some(b) => if b.takes(item) {
                    Some(to)
                } else {
                    None
                },
                None => None,
            },
            None => None,
        }
    }

    /// The move the building on tile `i` proposes this tick: its finished item goes forward,
    /// or, for a splitter, to whichever of its two outlets is next in turn and free.
    pub open spec fn proposal_at(self, i: int) -> Seq<(usize, usize, Item)> {
        match self.tiles[i].building {
            None => seq![],
            Some(b) => match b.output {
                None => seq![],
                Some(item) => {
                    let swapped = b.kind == Kind::Splitter && b.split_next;
                    let first = if swapped {
                        b.direction.turned()
                    } else {
                        b.direction
                    };
                    let second = if swapped {
                        b.direction
                    } else {
                        b.direction.turned()
                    };
                    match self.target(i, first, item) {
                        Some(to) => seq![(i as usize, to, item)],
                        None => if b.kind == Kind::Splitter {
                            match self.target(i, second, item) {
                                Some(to) => seq![(i as usize, to, item)],
                                None => seq![],
                            }
                        } else {
                            seq![]
                        },
                    }
                },
            },
        }
    }

    /// The moves proposed by the first `n` tiles, in tile order.
    pub open spec fn proposals_upto(self, n: nat) -> Seq<(usize, usize, Item)>
        decreases n,
    {
        if n == 0 {
            seq![]
        } else {
            self.proposals_upto((n - 1) as nat) + self.proposal_at(n - 1)
        }
    }

    /// Every move proposed this tick, all judged against the same factory.
    pub open spec fn proposals(self) -> Seq<(usize, usize, Item)> {
        self.proposals_upto(self.tiles.len())
    }

    /// Carrying out one proposed move, if it still holds: the source still has the item and
    /// the target still takes it. A splitter that hands an item on switches outlets.
    pub open spec fn transfer(self, p: (usize, usize, Item)) -> GameModel {
        let from = p.0 as int;
        let to = p.1 as int;
        let item = p.2;
        match self.tiles[from].building {
            Some(src) => if src.output == Some(item) && (match self.tiles[to].building {
                Some(dst) => dst.takes(item),
                None => false,
            }) {
                let emptied = BuildingModel {
                    output: None,
                    split_next: if src.kind == Kind::Splitter {
                        !src.split_next
                    } else {
                        src.split_next
                    },
                    ..src
                };
                self.with_building(from, emptied).receive(to, item)
            } else {
                self
            },
            None => self,
        }
    }

    /// Carrying out the moves in order.
    pub open spec fn transfers(self, ps: Seq<(usize, usize, Item)>) -> GameModel
        decreases ps.len(),
    {
        if ps.len() == 0 {
            self
        } else {
            self.transfers(ps.drop_last()).transfer(ps.last())
        }
    }

    /// Every building works once; finished items are counted as produced.
    pub open spec fn production(self) -> GameModel {
        GameModel {
            tiles: Seq::new(self.tiles.len(), |i: int| worked(self.tiles[i]).0),
            produced: Seq::new(
                6,
                |k: int| (self.produced[k] + finished_count(self.tiles, k, self.tiles.len())) as u32,
            ),
            ..self
        }
    }

    /// One tick: nothing while paused; otherwise the clock advances, proposed moves are
    /// carried out, then every building works.
    pub open spec fn ticked(self) -> GameModel {
        if self.paused {
            self
        } else {
            let started = GameModel { ticks: (self.ticks + 1) as u64, ..self };
            started.transfers(started.proposals()).production()
        }
    }

    /// No counter can overflow during one tick. Every tile moves at most one item per tick,
    /// so each counter needs room for one step per tile.
    pub open spec fn tick_headroom(self) -> bool {
        &&& self.ticks < u64::MAX
        &&& forall|k: int| 0 <= k < 6 ==> #[trigger] self.delivered[k] + 330 <= u32::MAX
        &&& forall|k: int| 0 <= k < 6 ==> #[trigger] self.produced[k] + 330 <= u32::MAX
        &&& self.order_progress + 330 <= u32::MAX
        &&& self.order_index + 330 <= ORDER_LIMIT
        &&& self.credits + 330 * reward_bound(self.order_index, self.first_order_reward)
            <= u32::MAX
        &&& self.buildings[3] + 330 * 12 <= u16::MAX
        &&& forall|i: int|
            0 <= i < self.tiles.len() ==> ((#[trigger] self.tiles[i]).building matches Some(b)
                ==> b.progress < u8::MAX)
    }

    /// Carrying out move `p` overflows no counter: where the move happens, what receives
    /// the item has room to count it.
    pub open spec fn step_fits(self, p: (usize, usize, Item)) -> bool {
        match (self.tiles[p.0 as int].building, self.tiles[p.1 as int].building) {
            (Some(src), Some(dst)) => (src.output == Some(p.2) && dst.takes(p.2))
                ==> self.receive_fits(p.1 as int, p.2),
            _ => true,
        }
    }

    /// Carrying out the moves in order overflows no counter.
    pub open spec fn moves_fit(self, ps: Seq<(usize, usize, Item)>) -> bool {
        forall|i: int| 0 <= i < ps.len() ==> self.transfers(ps.take(i)).step_fits(#[trigger] ps[i])
    }

    /// Every building working once overflows no counter: the production counts have room
    /// for what is finished, and every building that works has room to step its progress.
    pub open spec fn work_fits(self) -> bool {
        &&& forall|k: int|
            0 <= k < 6 ==> #[trigger] self.produced[k] + finished_count(self.tiles, k, self.tiles.len())
                <= u32::MAX
        &&& forall|i: int|
            0 <= i < self.tiles.len() ==> ((#[trigger] self.tiles[i]).building matches Some(b)
                ==> (advances(b, self.tiles[i].deposit) ==> b.progress < u8::MAX))
    }

    /// One tick overflows no counter: not the clock, not the moves, not the work.
    pub open spec fn tick_safe(self) -> bool {
        let started = GameModel { ticks: (self.ticks + 1) as u64, ..self };
        &&& self.ticks < u64::MAX
        &&& started.moves_fit(started.proposals())
        &&& started.transfers(started.proposals()).work_fits()
    }
}

/// Whether a building works this tick, stepping its progress: it holds no finished item, and
/// a miner stands on ore, a furnace holds ore, an assembler holds what its recipe needs.
pub open spec fn advances(b: BuildingModel, deposit: Option<Item>) -> bool {
    &&& b.output is None
    &&& match b.kind {
        Kind::Miner => deposit is Some,
        Kind::Furnace => b.input[0] > 0 || b.input[1] > 0,
        Kind::Assembler => match b.recipe {
            Recipe::Gear => b.input[2] >= 2,
            Recipe::Circuit => b.input[2] >= 1 && b.input[3] >= 1,
        },
        _ => false,
    }
}

proof fn lemma_finished_mono(tiles: Seq<TileModel>, k: int, a: nat, b: nat)
    requires
        a <= b,
    ensures
        finished_count(tiles, k, a) <= finished_count(tiles, k, b),
    decreases b,
{
    if a < b {
        lemma_finished_mono(tiles, k, a, (b - 1) as nat);
    }
}

proof fn lemma_transfer_basic(g: GameModel, p: (usize, usize, Item))
    requires
        g.wf(),
        p.0 < 330,
        p.1 < 330,
    ensures
        g.transfer(p).wf(),
        g.transfer(p).produced == g.produced,
{
}


proof fn lemma_neighbor(index: int, d: Direction)
    requires
        0 <= index < 330,
    ensures
        neighbor(index, d) matches Some(t) ==> t < 330 && t != index,
{
    assert(index == (index / 22) * 22 + index % 22 && 0 <= index % 22 < 22) by (nonlinear_arith)
        requires
            0 <= index < 330,
    ;
}

pub(crate) proof fn lemma_proposals(g: GameModel, n: nat)
    requires
        g.wf(),
        n <= 330,
    ensures
        g.proposals_upto(n).len() <= n,
        forall|j: int|
            0 <= j < g.proposals_upto(n).len() ==> {
                let p = #[trigger] g.proposals_upto(n)[j];
                p.0 < 330 && p.1 < 330 && p.0 != p.1
            },
    decreases n,
{
    if n > 0 {
        let m = (n - 1) as nat;
        lemma_proposals(g, m);
        let b = g.tiles[m as int].building;
        lemma_neighbor(m as int, Direction::North);
        lemma_neighbor(m as int, Direction::East);
        lemma_neighbor(m as int, Direction::South);
        lemma_neighbor(m as int, Direction::West);
        let prev = g.proposals_upto(m);
        let here = g.proposal_at(m as int);
        assert(here.len() <= 1);
        assert forall|j: int| 0 <= j < here.len() implies {
            let p = #[trigger] here[j];
            p.0 < 330 && p.1 < 330 && p.0 != p.1
        } by {
            let bb = b->0;
            assert(bb.direction.turned() == bb.direction.turned());
        }
        assert forall|j: int| 0 <= j < g.proposals_upto(n).len() implies {
            let p = #[trigger] g.proposals_upto(n)[j];
            p.0 < 330 && p.1 < 330 && p.0 != p.1
        } by {
            if j < prev.len() {
                assert(g.proposals_upto(n)[j] == prev[j]);
            } else {
                assert(g.proposals_upto(n)[j] == here[j - prev.len()]);
            }
        }
    }
}

proof fn lemma_finished_count(tiles: Seq<TileModel>, k: int, n: nat)
    ensures
        finished_count(tiles, k, n) <= n,
    decreases n,
{
    if n > 0 {
        lemma_finished_count(tiles, k, (n - 1) as nat);
    }
}

impl Game {
    /// One building's work for the tick.
    fn work_building(b: &mut Building, deposit: Option<Item>) -> (out: Option<Item>)
        requires
            advances(old(b)@, deposit) ==> old(b).progress < u8::MAX,
        ensures
            final(b)@ == work(old(b)@, deposit).0,
            out == work(old(b)@, deposit).1,
    {
        if b.output.is_some() {
            return None;
        }
        let ghost before = b@;
        match b.kind {
            Kind::Miner => {
                if let Some(item) = deposit {
                    b.progress += 1;
                    if b.progress >= 4 {
                        b.progress = 0;
                        b.output = Some(item);
                        return Some(item);
                    }
                }
                None
            },
            Kind::Furnace => {
                let ore = if b.input[Item::IronOre.index()] > 0 {
                    Some(Item::IronOre)
                } else if b.input[Item::CopperOre.index()] > 0 {
                    Some(Item::CopperOre)
                } else {
                    None
                };
                if let Some(ore) = ore {
                    b.progress += 1;
                    if b.progress >= 3 {
                        b.progress = 0;
                        b.input[ore.index()] -= 1;
                        let out = if ore == Item::IronOre {
                            Item::IronBar
                        } else {
                            Item::CopperBar
                        };
                        b.output = Some(out);
                        assert(b@.input =~= work(before, deposit).0.input);
                        return Some(out);
                    }
                }
                None
            },
            Kind::Assembler => {
                let iron = b.input[Item::IronBar.index()];
                let copper = b.input[Item::CopperBar.index()];
                let ready = match b.recipe {
                    Recipe::Gear => iron >= 2,
                    Recipe::Circuit => iron >= 1 && copper >= 1,
                };
                if ready {
                    b.progress += 1;
                    if b.progress >= 5 {
                        b.progress = 0;
                        b.input[Item::IronBar.index()] -= match b.recipe {
                            Recipe::Gear => 2,
                            Recipe::Circuit => 1,
                        };
                        if b.recipe == Recipe::Circuit {
                            b.input[Item::CopperBar.index()] -= 1;
                        }
                        let out = b.recipe.item();
                        b.output = Some(out);
                        assert(b@.input =~= work(before, deposit).0.input);
                        return Some(out);
                    }
                }
                None
            },
            _ => None,
        }
    }

    /// The move the building on tile `index` proposes this tick, if any.
    fn proposal(&self, index: usize) -> (proposal: Option<(usize, usize, Item)>)
        requires
            self@.wf(),
            index < tile_count(),
        ensures
            self@.proposal_at(index as int) == match proposal {
                Some(p) => seq![p],
                None => seq![],
            },
    {
        let b = match self.tiles[index].building {
            Some(b) => b,
            None => return None,
        };
        let item = match b.output {
            Some(item) => item,
            None => return None,
        };
        let directions = [b.direction, b.direction.next()];
        let candidates = if b.kind == Kind::Splitter && b.split_next {
            [directions[1], directions[0]]
        } else {
            directions
        };
        let options: usize = if b.kind == Kind::Splitter {
            2
        } else {
            1
        };
        let mut k: usize = 0;
        while k < options
            invariant
                self@.wf(),
                index < tile_count(),
                self@.tiles[index as int].building == Some(b@),
                b.output == Some(item),
                options == if b.kind == Kind::Splitter {
                    2usize
                } else {
                    1usize
                },
                k <= options,
                candidates@ == if b.kind == Kind::Splitter && b.split_next {
                    seq![b.direction.turned(), b.direction]
                } else {
                    seq![b.direction, b.direction.turned()]
                },
                forall|j: int|
                    0 <= j < k ==> self@.target(index as int, #[trigger] candidates@[j], item)
                        is None,
            decreases options - k,
        {
            let dir = candidates[k];
            if let Some(to) = self.next(index, dir) {
                proof {
                    lemma_neighbor(index as int, dir);
                }
                let takes = match &self.tiles[to].building {
                    Some(t) => t.accepts(item),
                    None => false,
                };
                if takes {
                    assert(self@.target(index as int, dir, item) == Some(to));
                    return Some((index, to, item));
                }
            }
            k += 1;
        }
        assert(self@.target(index as int, candidates@[0], item) is None);
        None
    }

    /// Carries out one proposed move if it still holds.
    fn transfer(&mut self, from: usize, to: usize, item: Item)
        requires
            old(self)@.wf(),
            from < tile_count(),
            to < tile_count(),
            from != to,
            old(self)@.step_fits((from, to, item)),
        ensures
            final(self)@ == old(self)@.transfer((from, to, item)),
    {
        let src = match self.tiles[from].building {
            Some(b) => b,
            None => return ,
        };
        let holds = match src.output {
            Some(o) => o == item,
            None => false,
        };
        let takes = match &self.tiles[to].building {
            Some(b) => b.accepts(item),
            None => false,
        };
        if holds && takes {
            let mut emptied = src;
            emptied.output = None;
            if src.kind == Kind::Splitter {
                emptied.split_next = !src.split_next;
            }
            let ghost before = self@;
            self.tiles[from].building = Some(emptied);
            assert(self@ =~= before.with_building(from as int, emptied@));
            assert(self@.tiles[to as int] == before.tiles[to as int]);
            self.accept(to, item);
        }
    }
}


proof fn lemma_transfer_effects(g: GameModel, p: (usize, usize, Item))
    requires
        g.wf(),
        p.0 < 330,
        p.1 < 330,
        p.0 != p.1,
        g.hub_fits(p.2),
    ensures
        g.transfer(p).wf(),
        forall|m: int| 0 <= m < 6 ==> #[trigger] g.transfer(p).delivered[m] <= g.delivered[m] + 1,
        g.transfer(p).produced == g.produced,
        g.transfer(p).first_order_amount == g.first_order_amount,
        g.transfer(p).first_order_reward == g.first_order_reward,
        g.transfer(p).order_progress <= g.order_progress + 1,
        g.transfer(p).order_index <= g.order_index + 1,
        g.transfer(p).credits <= g.credits + g.order().reward,
        g.transfer(p).buildings[3] <= g.buildings[3] + 12,
        forall|j: int|
            0 <= j < 330 ==> ((#[trigger] g.transfer(p).tiles[j]).building is Some <==> g.tiles[j].building is Some),
        forall|j: int|
            0 <= j < 330 && g.tiles[j].building is Some ==> (#[trigger] g.transfer(p).tiles[j]).building->0.progress
                == g.tiles[j].building->0.progress,
{
}

/// Tile `t` keeps tile `s`'s deposit and building: present or absent alike, and of the same
/// kind, direction and recipe.
pub open spec fn same_fixture(s: TileModel, t: TileModel) -> bool {
    &&& s.deposit == t.deposit
    &&& (s.building is Some <==> t.building is Some)
    &&& s.building matches Some(a) ==> {
        &&& t.building->0.kind == a.kind
        &&& t.building->0.direction == a.direction
        &&& t.building->0.recipe == a.recipe
    }
}

/// From `g` to `t` the inventory, placements, floor, hub, pause state, clock and every
/// building's fixture stay, and credits, building stock, deliveries and production never
/// drop.
pub open spec fn only_grows(g: GameModel, t: GameModel) -> bool {
    &&& t.wf()
    &&& t.stock == g.stock
    &&& t.placed == g.placed
    &&& t.hub == g.hub
    &&& t.terrain == g.terrain
    &&& t.paused == g.paused
    &&& t.ticks == g.ticks
    &&& t.first_order_amount == g.first_order_amount
    &&& t.first_order_reward == g.first_order_reward
    &&& t.tiles.len() == g.tiles.len()
    &&& forall|i: int| 0 <= i < g.tiles.len() ==> same_fixture(g.tiles[i], #[trigger] t.tiles[i])
    &&& t.credits >= g.credits
    &&& forall|k: int| 0 <= k < 5 ==> #[trigger] t.buildings[k] >= g.buildings[k]
    &&& forall|k: int| 0 <= k < 6 ==> #[trigger] t.delivered[k] >= g.delivered[k]
    &&& forall|k: int| 0 <= k < 6 ==> #[trigger] t.produced[k] >= g.produced[k]
}

proof fn lemma_only_grows_trans(a: GameModel, b: GameModel, c: GameModel)
    requires
        only_grows(a, b),
        only_grows(b, c),
    ensures
        only_grows(a, c),
{
    assert forall|i: int| 0 <= i < a.tiles.len() implies same_fixture(a.tiles[i], #[trigger] c.tiles[i]) by {
        assert(same_fixture(a.tiles[i], b.tiles[i]));
        assert(same_fixture(b.tiles[i], c.tiles[i]));
    }
    assert forall|k: int| 0 <= k < 5 implies #[trigger] c.buildings[k] >= a.buildings[k] by {
        assert(b.buildings[k] >= a.buildings[k]);
    }
    assert forall|k: int| 0 <= k < 6 implies #[trigger] c.delivered[k] >= a.delivered[k] by {
        assert(b.delivered[k] >= a.delivered[k]);
    }
    assert forall|k: int| 0 <= k < 6 implies #[trigger] c.produced[k] >= a.produced[k] by {
        assert(b.produced[k] >= a.produced[k]);
    }
}

proof fn lemma_only_grows_refl(g: GameModel)
    requires
        g.wf(),
    ensures
        only_grows(g, g),
{
}

proof fn lemma_transfer_grows(g: GameModel, p: (usize, usize, Item))
    requires
        g.wf(),
        p.0 < 330,
        p.1 < 330,
        p.0 != p.1,
        g.step_fits(p),
    ensures
        only_grows(g, g.transfer(p)),
{
    let t = g.transfer(p);
    assert forall|i: int| 0 <= i < g.tiles.len() implies same_fixture(g.tiles[i], #[trigger] t.tiles[i]) by {}
    assert forall|k: int| 0 <= k < 5 implies #[trigger] t.buildings[k] >= g.buildings[k] by {}
    assert forall|k: int| 0 <= k < 6 implies #[trigger] t.delivered[k] >= g.delivered[k] by {}
}

proof fn lemma_transfers_grow(
    original: GameModel,
    started: GameModel,
    ps: Seq<(usize, usize, Item)>,
    i: int,
)
    requires
        original.wf(),
        original.tick_headroom(),
        started == (GameModel { ticks: (original.ticks + 1) as u64, ..original }),
        ps.len() <= 330,
        forall|j: int|
            0 <= j < ps.len() ==> {
                let p = #[trigger] ps[j];
                p.0 < 330 && p.1 < 330 && p.0 != p.1
            },
        0 <= i <= ps.len(),
    ensures
        only_grows(started, started.transfers(ps.take(i))),
        forall|m: int|
            0 <= m < 6 ==> #[trigger] started.transfers(ps.take(i)).delivered[m]
                <= original.delivered[m] + i,
        started.transfers(ps.take(i)).order_progress <= original.order_progress + i,
        started.transfers(ps.take(i)).order_index <= original.order_index + i,
        started.transfers(ps.take(i)).credits <= original.credits + i * reward_bound(
            original.order_index,
            original.first_order_reward,
        ),
        started.transfers(ps.take(i)).buildings[3] <= original.buildings[3] + 12 * i,
        started.transfers(ps.take(i)).produced == original.produced,
        i > 0 ==> started.transfers(ps.take(i - 1)).hub_fits(ps[i - 1].2),
    decreases i,
{
    let bound = reward_bound(original.order_index, original.first_order_reward);
    if i == 0 {
        assert(ps.take(0) =~= Seq::<(usize, usize, Item)>::empty());
        lemma_only_grows_refl(started);
    } else {
        lemma_transfers_grow(original, started, ps, i - 1);
        lemma_transfers_step(started, ps, i - 1);
        let g = started.transfers(ps.take(i - 1));
        let p = ps[i - 1];
        lemma_reward_bound(g.order_index, g.first_order_amount, g.first_order_reward, original.order_index);
        lemma_step_credits(g.credits as int, g.order().reward as int, original.credits as int, i - 1, bound);
        assert(g.delivered[p.2.ordinal()] <= original.delivered[p.2.ordinal()] + (i - 1));
        assert(g.hub_fits(p.2));
        lemma_transfer_effects(g, p);
        assert(g.step_fits(p));
        lemma_transfer_grows(g, p);
        lemma_only_grows_trans(started, g, g.transfer(p));
    }
}

proof fn lemma_safe_transfers_grow(started: GameModel, ps: Seq<(usize, usize, Item)>, i: int)
    requires
        started.wf(),
        started.moves_fit(ps),
        forall|j: int|
            0 <= j < ps.len() ==> {
                let p = #[trigger] ps[j];
                p.0 < 330 && p.1 < 330 && p.0 != p.1
            },
        0 <= i <= ps.len(),
    ensures
        only_grows(started, started.transfers(ps.take(i))),
        started.transfers(ps.take(i)).produced == started.produced,
    decreases i,
{
    if i == 0 {
        assert(ps.take(0) =~= Seq::<(usize, usize, Item)>::empty());
        lemma_only_grows_refl(started);
    } else {
        lemma_safe_transfers_grow(started, ps, i - 1);
        lemma_transfers_step(started, ps, i - 1);
        let g = started.transfers(ps.take(i - 1));
        let p = ps[i - 1];
        assert(g.step_fits(p));
        lemma_transfer_basic(g, p);
        lemma_transfer_grows(g, p);
        lemma_only_grows_trans(started, g, g.transfer(p));
    }
}

/// One tick: while paused nothing changes; otherwise the clock advances by one and the
/// rest moves as `only_grows` allows. This holds wherever the tick cannot overflow.
pub proof fn lemma_tick_grows(g: GameModel)
    requires
        g.wf(),
        !g.paused ==> g.tick_safe(),
    ensures
        g.paused ==> g.ticked() == g,
        !g.paused ==> g.ticked().ticks == g.ticks + 1,
        !g.paused ==> only_grows(g, GameModel { ticks: g.ticks, ..g.ticked() }),
{
    if !g.paused {
        let started = GameModel { ticks: (g.ticks + 1) as u64, ..g };
        lemma_proposals(started, 330);
        let ps = started.proposals();
        lemma_safe_transfers_grow(started, ps, ps.len() as int);
        assert(ps.take(ps.len() as int) =~= ps);
        let moved = started.transfers(ps);
        let done = moved.production();
        let back = GameModel { ticks: g.ticks, ..done };
        assert forall|i: int| 0 <= i < g.tiles.len() implies same_fixture(g.tiles[i], #[trigger] back.tiles[i]) by {
            assert(same_fixture(started.tiles[i], moved.tiles[i]));
        }
        assert forall|k: int| 0 <= k < 5 implies #[trigger] back.buildings[k] >= g.buildings[k] by {
            assert(moved.buildings[k] >= started.buildings[k]);
        }
        assert forall|k: int| 0 <= k < 6 implies #[trigger] back.delivered[k] >= g.delivered[k] by {
            assert(moved.delivered[k] >= started.delivered[k]);
        }
        assert forall|k: int| 0 <= k < 6 implies #[trigger] back.produced[k] >= g.produced[k] by {
            let f = finished_count(moved.tiles, k, moved.tiles.len());
            assert(moved.produced[k] == g.produced[k]);
            assert(moved.produced[k] + f <= u32::MAX);
            assert(back.produced[k] == (moved.produced[k] + f) as u32);
        }
    }
}

proof fn lemma_moves_fit_prefix(
    original: GameModel,
    started: GameModel,
    ps: Seq<(usize, usize, Item)>,
    i: int,
)
    requires
        original.wf(),
        original.tick_headroom(),
        started == (GameModel { ticks: (original.ticks + 1) as u64, ..original }),
        ps.len() <= 330,
        forall|j: int|
            0 <= j < ps.len() ==> {
                let p = #[trigger] ps[j];
                p.0 < 330 && p.1 < 330 && p.0 != p.1
            },
        0 <= i <= ps.len(),
    ensures
        forall|j: int| 0 <= j < i ==> started.transfers(ps.take(j)).step_fits(#[trigger] ps[j]),
        started.transfers(ps.take(i)).wf(),
        forall|t: int|
            0 <= t < 330 ==> ((#[trigger] started.transfers(ps.take(i)).tiles[t]).building matches Some(
                b,
            ) ==> b.progress < u8::MAX),
    decreases i,
{
    if i == 0 {
        assert(ps.take(0) =~= Seq::<(usize, usize, Item)>::empty());
    } else {
        lemma_moves_fit_prefix(original, started, ps, i - 1);
        lemma_transfers_grow(original, started, ps, i);
        lemma_transfers_step(started, ps, i - 1);
        let g = started.transfers(ps.take(i - 1));
        let p = ps[i - 1];
        lemma_transfer_effects(g, p);
        assert(g.step_fits(p));
        assert forall|t: int|
            0 <= t < 330 implies ((#[trigger] g.transfer(p).tiles[t]).building matches Some(b)
                ==> b.progress < u8::MAX) by {
            if g.tiles[t].building is Some {
                assert(g.tiles[t].building->0.progress < u8::MAX);
            }
        }
    }
}

/// A factory with headroom on every counter ticks without overflow.
pub proof fn lemma_headroom_safe(g: GameModel)
    requires
        g.wf(),
        g.tick_headroom(),
    ensures
        g.tick_safe(),
{
    let started = GameModel { ticks: (g.ticks + 1) as u64, ..g };
    lemma_proposals(started, 330);
    let ps = started.proposals();
    lemma_transfers_grow(g, started, ps, ps.len() as int);
    lemma_moves_fit_prefix(g, started, ps, ps.len() as int);
    assert(ps.take(ps.len() as int) =~= ps);
    let moved = started.transfers(ps);
    assert forall|k: int| 0 <= k < 6 implies #[trigger] moved.produced[k] + finished_count(
        moved.tiles,
        k,
        moved.tiles.len(),
    ) <= u32::MAX by {
        lemma_finished_count(moved.tiles, k, moved.tiles.len());
        assert(g.produced[k] + 330 <= u32::MAX);
    }
}

proof fn lemma_reward_bound(n: u32, first_amount: u32, first_reward: u32, base: u32)
    requires
        n <= base + 330,
        n <= ORDER_LIMIT,
    ensures
        order_for(n, first_amount, first_reward).reward <= reward_bound(base, first_reward),
        order_for(n, first_amount, first_reward).bonus_belts <= 12,
{
}

proof fn lemma_step_credits(credits: int, reward: int, base: int, i: int, bound: int)
    requires
        0 <= i < 330,
        0 <= reward <= bound,
        credits <= base + i * bound,
        base + 330 * bound <= u32::MAX,
    ensures
        credits + reward <= base + (i + 1) * bound,
        base + (i + 1) * bound <= u32::MAX,
{
    assert(credits + reward <= base + (i + 1) * bound && base + (i + 1) * bound <= u32::MAX)
        by (nonlinear_arith)
        requires
            0 <= i < 330,
            0 <= reward <= bound,
            credits <= base + i * bound,
            base + 330 * bound <= u32::MAX,
    ;
}

proof fn lemma_transfers_step(g: GameModel, ps: Seq<(usize, usize, Item)>, i: int)
    requires
        0 <= i < ps.len(),
    ensures
        g.transfers(ps.take(i + 1)) == g.transfers(ps.take(i)).transfer(ps[i]),
{
    assert(ps.take(i + 1).drop_last() =~= ps.take(i));
}

impl Game {
    /// Whether every counter has room for a whole tick of moves and work (always so while
    /// paused); where it has, the next tick overflows none.
    pub fn tick_fits(&self) -> (fits: bool)
        requires
            self@.wf(),
        ensures
            fits == (self@.paused || self@.tick_headroom()),
            fits ==> self@.paused || self@.tick_safe(),
    {
        proof {
            if self@.tick_headroom() {
                lemma_headroom_safe(self@);
            }
        }
        if self.paused {
            return true;
        }
        if self.ticks == u64::MAX || self.order_progress as u64 + 330 > u32::MAX as u64
            || self.order_index as u64 + 330 > ORDER_LIMIT as u64 || self.buildings[3] as u64
            + 330 * 12 > u16::MAX as u64 {
            return false;
        }
        let bound: u64 = self.first_order_reward as u64 + 35 + 8 * (self.order_index as u64 + 330);
        assert(bound == reward_bound(self.order_index, self.first_order_reward));
        if self.credits as u64 + 330 * bound > u32::MAX as u64 {
            return false;
        }
        let ghost scalars = {
            &&& self@.ticks < u64::MAX
            &&& self@.order_progress + 330 <= u32::MAX
            &&& self@.order_index + 330 <= ORDER_LIMIT
            &&& self@.credits + 330 * reward_bound(self@.order_index, self@.first_order_reward)
                <= u32::MAX
            &&& self@.buildings[3] + 330 * 12 <= u16::MAX
        };
        assert(scalars);
        let mut k: usize = 0;
        while k < 6
            invariant
                k <= 6,
                self@.wf(),
                !self@.paused,
                scalars,
                scalars == {
                    &&& self@.ticks < u64::MAX
                    &&& self@.order_progress + 330 <= u32::MAX
                    &&& self@.order_index + 330 <= ORDER_LIMIT
                    &&& self@.credits + 330 * reward_bound(self@.order_index, self@.first_order_reward)
                        <= u32::MAX
                    &&& self@.buildings[3] + 330 * 12 <= u16::MAX
                },
                forall|j: int| 0 <= j < k ==> #[trigger] self@.delivered[j] + 330 <= u32::MAX,
                forall|j: int| 0 <= j < k ==> #[trigger] self@.produced[j] + 330 <= u32::MAX,
            decreases 6 - k,
        {
            if self.delivered[k] as u64 + 330 > u32::MAX as u64 || self.produced[k] as u64 + 330
                > u32::MAX as u64 {
                assert(!self@.tick_headroom()) by {
                    assert(self@.delivered[k as int] == self.delivered[k as int]);
                    assert(self@.produced[k as int] == self.produced[k as int]);
                }
                return false;
            }
            k += 1;
        }
        let mut i: usize = 0;
        while i < self.tiles.len()
            invariant
                i <= self.tiles@.len(),
                self@.wf(),
                !self@.paused,
                scalars,
                scalars == {
                    &&& self@.ticks < u64::MAX
                    &&& self@.order_progress + 330 <= u32::MAX
                    &&& self@.order_index + 330 <= ORDER_LIMIT
                    &&& self@.credits + 330 * reward_bound(self@.order_index, self@.first_order_reward)
                        <= u32::MAX
                    &&& self@.buildings[3] + 330 * 12 <= u16::MAX
                },
                forall|j: int| 0 <= j < 6 ==> #[trigger] self@.delivered[j] + 330 <= u32::MAX,
                forall|j: int| 0 <= j < 6 ==> #[trigger] self@.produced[j] + 330 <= u32::MAX,
                forall|j: int|
                    0 <= j < i ==> ((#[trigger] self@.tiles[j]).building matches Some(b)
                        ==> b.progress < u8::MAX),
            decreases self.tiles@.len() - i,
        {
            assert(self.tiles@[i as int]@ == self@.tiles[i as int]);
            if let Some(b) = self.tiles[i].building {
                if b.progress == u8::MAX {
                    assert(!self@.tick_headroom()) by {
                        assert(self@.tiles[i as int].building matches Some(c) && c.progress
                            == u8::MAX);
                    }
                    return false;
                }
            }
            i += 1;
        }
        true
    }

    /// One tick of the factory (see `GameModel::ticked`), wherever it overflows no counter.
    pub fn tick(&mut self)
        requires
            old(self)@.wf(),
            !old(self)@.paused ==> old(self)@.tick_safe(),
        ensures
            final(self)@ == old(self)@.ticked(),
    {
        if self.paused {
            return ;
        }
        let ghost original = self@;
        self.ticks += 1;
        let ghost started = self@;
        assert(started == GameModel { ticks: (original.ticks + 1) as u64, ..original });
        let mut proposals: Vec<(usize, usize, Item)> = Vec::new();
        let mut index: usize = 0;
        while index < self.tiles.len()
            invariant
                self@ == started,
                started.wf(),
                index <= tile_count(),
                proposals@ == started.proposals_upto(index as nat),
            decreases tile_count() - index,
        {
            if let Some(p) = self.proposal(index) {
                proposals.push(p);
            }
            index += 1;
        }
        proof {
            lemma_proposals(started, 330);
            assert(proposals@ == started.proposals());
            assert(started.moves_fit(proposals@));
        }
        self.carry_out(&proposals);
        assert(self@.work_fits());
        self.work_all();
    }

    /// Carries out the moves in order (see `GameModel::transfers`).
    fn carry_out(&mut self, proposals: &Vec<(usize, usize, Item)>)
        requires
            old(self)@.wf(),
            old(self)@.moves_fit(proposals@),
            forall|j: int|
                0 <= j < proposals@.len() ==> {
                    let p = #[trigger] proposals@[j];
                    p.0 < 330 && p.1 < 330 && p.0 != p.1
                },
        ensures
            final(self)@ == old(self)@.transfers(proposals@),
            final(self)@.wf(),
    {
        let ghost start = self@;
        let mut i: usize = 0;
        while i < proposals.len()
            invariant
                start.wf(),
                start.moves_fit(proposals@),
                forall|j: int|
                    0 <= j < proposals@.len() ==> {
                        let p = #[trigger] proposals@[j];
                        p.0 < 330 && p.1 < 330 && p.0 != p.1
                    },
                i <= proposals@.len(),
                self@ == start.transfers(proposals@.take(i as int)),
                self@.wf(),
            decreases proposals@.len() - i,
        {
            let (from, to, item) = proposals[i];
            proof {
                assert(proposals@[i as int] == (from, to, item));
                assert(start.transfers(proposals@.take(i as int)).step_fits(proposals@[i as int]));
                lemma_transfer_basic(self@, (from, to, item));
                lemma_transfers_step(start, proposals@, i as int);
            }
            self.transfer(from, to, item);
            i += 1;
        }
        assert(proposals@.take(proposals@.len() as int) =~= proposals@);
    }

    /// Every building works once, in tile order (see `GameModel::production`).
    fn work_all(&mut self)
        requires
            old(self)@.wf(),
            old(self)@.work_fits(),
        ensures
            final(self)@ == old(self)@.production(),
    {
        let ghost moved = self@;
        let mut index: usize = 0;
        while index < self.tiles.len()
            invariant
                moved.wf(),
                self@.wf(),
                moved.work_fits(),
                index <= tile_count(),
                forall|j: int| 0 <= j < index ==> #[trigger] self@.tiles[j] == worked(moved.tiles[j]).0,
                forall|j: int| index <= j < 330 ==> #[trigger] self@.tiles[j] == moved.tiles[j],
                forall|k: int|
                    0 <= k < 6 ==> #[trigger] self@.produced[k] == moved.produced[k] + finished_count(
                        moved.tiles,
                        k,
                        index as nat,
                    ),
                self@ == (GameModel { tiles: self@.tiles, produced: self@.produced, ..moved }),
            decreases tile_count() - index,
        {
            let tile = self.tiles[index];
            let ghost prior = self@;
            assert(tile@ == self@.tiles[index as int]);
            assert(self@.tiles[index as int] == moved.tiles[index as int]);
            proof {
                assert forall|k: int| 0 <= k < 6 implies #[trigger] moved.produced[k] + finished_count(
                    moved.tiles,
                    k,
                    (index + 1) as nat,
                ) <= u32::MAX by {
                    lemma_finished_mono(moved.tiles, k, (index + 1) as nat, 330);
                }
            }
            if let Some(b) = tile.building {
                let mut b = b;
                let out = Self::work_building(&mut b, tile.deposit);
                self.tiles[index].building = Some(b);
                assert(forall|j: int| 0 <= j < 330 && j != index ==> self@.tiles[j] == prior.tiles[j]);
                if let Some(item) = out {
                    self.produced[item.index()] += 1;
                }
            }
            assert(self@.tiles[index as int] == worked(moved.tiles[index as int]).0);
            assert forall|j: int| 0 <= j < index + 1 implies #[trigger] self@.tiles[j] == worked(
                moved.tiles[j],
            ).0 by {
                if j < index {
                    assert(prior.tiles[j] == worked(moved.tiles[j]).0);
                }
            }
            assert forall|k: int| 0 <= k < 6 implies #[trigger] self@.produced[k] == moved.produced[k]
                + finished_count(moved.tiles, k, (index + 1) as nat) by {}
            assert forall|j: int| index + 1 <= j < 330 implies #[trigger] self@.tiles[j] == moved.tiles[j] by {
                assert(prior.tiles[j] == moved.tiles[j]);
            }
            index += 1;
        }
        assert(self@.tiles =~= moved.production().tiles);
        assert(self@.produced =~= moved.production().produced);
    }
}


/// Two factories have the same layout: the same floor, hub, deposits, and buildings of the
/// same kinds facing the same ways. Items, progress and counters may differ.
pub open spec fn same_layout(a: GameModel, b: GameModel) -> bool {
    &&& a.hub == b.hub
    &&& a.terrain == b.terrain
    &&& a.tiles.len() == b.tiles.len()
    &&& forall|i: int|
        0 <= i < a.tiles.len() ==> {
            &&& (#[trigger] a.tiles[i]).deposit == b.tiles[i].deposit
            &&& match (a.tiles[i].building, b.tiles[i].building) {
                (None, None) => true,
                (Some(x), Some(y)) => x.kind == y.kind && x.direction == y.direction,
                _ => false,
            }
        }
}

} // verus!
