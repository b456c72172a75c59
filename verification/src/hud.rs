//! The factory screen's readouts: the contract, its progress, the credits, the tool in
//! hand, the inventory and tool bars, and which buttons of the selected tile are live.
use vstd::prelude::*;
use crate::editor::export::upper;
use crate::runtime::{direction_name, Tool};
use crate::sim::{Direction, Game, Item, Kind, ORDER_LIMIT};
use crate::text::{append_decimal, decimal};

verus! {

/// `s` with ASCII letters in upper case.
pub open spec fn upper_text(s: Seq<char>) -> Seq<char> {
    s.map_values(|c: char| upper(c))
}

/// `n` written with at least two digits.
pub open spec fn two_digits(n: nat) -> Seq<char> {
    if n < 10 {
        "0"@ + decimal(n)
    } else {
        decimal(n)
    }
}

/// The compass letter of a direction.
pub open spec fn compass(d: Direction) -> Seq<char> {
    match d {
        Direction::North => "N"@,
        Direction::East => "E"@,
        Direction::South => "S"@,
        Direction::West => "W"@,
    }
}

fn item_caps(item: Item) -> (caps: &'static str)
    ensures
        caps@ == upper_text(item.label()),
{
    proof {
        reveal_strlit("Iron ore");
        reveal_strlit("IRON ORE");
        reveal_strlit("Copper ore");
        reveal_strlit("COPPER ORE");
        reveal_strlit("Iron ingot");
        reveal_strlit("IRON INGOT");
        reveal_strlit("Copper ingot");
        reveal_strlit("COPPER INGOT");
        reveal_strlit("Gear");
        reveal_strlit("GEAR");
        reveal_strlit("Circuit");
        reveal_strlit("CIRCUIT");
    }
    match item {
        Item::IronOre => {
            assert("IRON ORE"@ =~= upper_text("Iron ore"@));
            "IRON ORE"
        },
        Item::CopperOre => {
            assert("COPPER ORE"@ =~= upper_text("Copper ore"@));
            "COPPER ORE"
        },
        Item::IronBar => {
            assert("IRON INGOT"@ =~= upper_text("Iron ingot"@));
            "IRON INGOT"
        },
        Item::CopperBar => {
            assert("COPPER INGOT"@ =~= upper_text("Copper ingot"@));
            "COPPER INGOT"
        },
        Item::Gear => {
            assert("GEAR"@ =~= upper_text("Gear"@));
            "GEAR"
        },
        Item::Circuit => {
            assert("CIRCUIT"@ =~= upper_text("Circuit"@));
            "CIRCUIT"
        },
    }
}

fn kind_caps(kind: Kind) -> (caps: &'static str)
    ensures
        caps@ == upper_text(kind.label()),
{
    proof {
        reveal_strlit("Miner");
        reveal_strlit("MINER");
        reveal_strlit("Furnace");
        reveal_strlit("FURNACE");
        reveal_strlit("Assembler");
        reveal_strlit("ASSEMBLER");
        reveal_strlit("Conveyor");
        reveal_strlit("CONVEYOR");
        reveal_strlit("Splitter");
        reveal_strlit("SPLITTER");
        reveal_strlit("Hub");
        reveal_strlit("HUB");
    }
    match kind {
        Kind::Miner => {
            assert("MINER"@ =~= upper_text("Miner"@));
            "MINER"
        },
        Kind::Furnace => {
            assert("FURNACE"@ =~= upper_text("Furnace"@));
            "FURNACE"
        },
        Kind::Assembler => {
            assert("ASSEMBLER"@ =~= upper_text("Assembler"@));
            "ASSEMBLER"
        },
        Kind::Belt => {
            assert("CONVEYOR"@ =~= upper_text("Conveyor"@));
            "CONVEYOR"
        },
        Kind::Splitter => {
            assert("SPLITTER"@ =~= upper_text("Splitter"@));
            "SPLITTER"
        },
        Kind::Hub => {
            assert("HUB"@ =~= upper_text("Hub"@));
            "HUB"
        },
    }
}

/// The contract line: its number from one, with two digits, and what it asks for.
pub fn contract_label(game: &Game) -> (label: String)
    requires
        game.order_index <= ORDER_LIMIT,
    ensures
        label@ == "CONTRACT "@ + two_digits((game@.order_index + 1) as nat) + " · "@ + upper_text(
            game@.order().item.label(),
        ),
{
    let order = game.order();
    let number = game.order_index as u64 + 1;
    let mut label = String::from_str("CONTRACT ");
    if number < 10 {
        label.append("0");
    }
    append_decimal(&mut label, number);
    label.append(" · ");
    label.append(item_caps(order.item));
    proof {
        reveal_strlit("CONTRACT ");
        reveal_strlit("0");
        reveal_strlit(" · ");
    }
    assert(label@ =~= "CONTRACT "@ + two_digits((game@.order_index + 1) as nat) + " · "@ + upper_text(
        game@.order().item.label(),
    ));
    label
}

/// How far the contract has come: delivered of asked for.
pub fn progress_label(game: &Game) -> (label: String)
    requires
        game.order_index <= ORDER_LIMIT,
    ensures
        label@ == decimal(game@.order_progress as nat) + " / "@ + decimal(
            game@.order().amount as nat,
        ) + " DELIVERED"@,
{
    let order = game.order();
    let mut label = String::new();
    append_decimal(&mut label, game.order_progress as u64);
    label.append(" / ");
    append_decimal(&mut label, order.amount as u64);
    label.append(" DELIVERED");
    proof {
        reveal_strlit(" / ");
        reveal_strlit(" DELIVERED");
    }
    assert(label@ =~= decimal(game@.order_progress as nat) + " / "@ + decimal(
        game@.order().amount as nat,
    ) + " DELIVERED"@);
    label
}

/// The credits readout.
pub fn credits_label(game: &Game) -> (label: String)
    ensures
        label@ == "CREDITS  ¤"@ + decimal(game@.credits as nat),
{
    let mut label = String::from_str("CREDITS  ¤");
    append_decimal(&mut label, game.credits as u64);
    label
}

/// The pause button's caption: what pressing it does.
pub fn pause_label(paused: bool) -> (label: &'static str)
    ensures
        label@ == if paused {
            "RESUME"@
        } else {
            "PAUSE"@
        },
{
    if paused {
        "RESUME"
    } else {
        "PAUSE"
    }
}

/// The hint under the objective: how to start, for the first contract, else why to go on.
pub open spec fn objective_hint(order_index: u32) -> Seq<char> {
    if order_index == 0 {
        "Place Miner on ore, Furnace beside it, then Conveyor to Hub."@
    } else {
        "Complete this contract to advance and unlock the next upgrade."@
    }
}

/// The objective: how many of what are still to be delivered, then the hint.
pub fn objective_label(game: &Game) -> (label: String)
    requires
        game.order_index <= ORDER_LIMIT,
    ensures
        label@ == "Deliver "@ + decimal(
            (if game@.order().amount >= game@.order_progress {
                game@.order().amount - game@.order_progress
            } else {
                0
            }) as nat,
        ) + " × "@ + game@.order().item.label() + " to the Hub.\n"@ + objective_hint(
            game@.order_index,
        ),
{
    let order = game.order();
    let remaining = order.amount.saturating_sub(game.order_progress);
    let mut label = String::from_str("Deliver ");
    append_decimal(&mut label, remaining as u64);
    label.append(" × ");
    label.append(order.item.name());
    label.append(" to the Hub.\n");
    label.append(
        if game.order_index == 0 {
            "Place Miner on ore, Furnace beside it, then Conveyor to Hub."
        } else {
            "Complete this contract to advance and unlock the next upgrade."
        },
    );
    label
}

/// The tool in hand: what a click places, and facing where, what it carries, or inspecting.
pub fn tool_label(tool: Tool, facing: Direction) -> (label: String)
    ensures
        label@ == match tool {
            Tool::Build(kind) => "PLACE "@ + upper_text(kind.label()) + " "@ + compass(facing),
            Tool::Carry(item) => "CARRY "@ + upper_text(item.label()),
            Tool::Inspect => "INSPECT"@,
        },
{
    match tool {
        Tool::Build(kind) => {
            let mut label = String::from_str("PLACE ");
            label.append(kind_caps(kind));
            label.append(" ");
            label.append(direction_name(facing));
            label
        },
        Tool::Carry(item) => {
            let mut label = String::from_str("CARRY ");
            label.append(item_caps(item));
            label
        },
        Tool::Inspect => String::from_str("INSPECT"),
    }
}

/// An inventory line: the item and how many are held.
pub fn carry_label(game: &Game, item: Item) -> (label: String)
    ensures
        label@ == item.label() + "  ×"@ + decimal(game@.stock[item.ordinal()] as nat),
{
    let mut label = String::new();
    label.append(item.name());
    label.append("  ×");
    append_decimal(&mut label, game.stock[item.index()] as u64);
    proof {
        reveal_strlit("");
    }
    assert(label@ =~= item.label() + "  ×"@ + decimal(game@.stock[item.ordinal()] as nat));
    label
}

/// A tool bar button: its number key, the building, and how many are in stock.
pub fn toolbar_label(game: &Game, kind: Kind) -> (label: String)
    requires
        kind != Kind::Hub,
    ensures
        label@ == decimal((kind.ordinal() + 1) as nat) + "\n"@ + kind.label() + "\n×"@ + decimal(
            game@.buildings[kind.ordinal()] as nat,
        ),
{
    let mut label = String::new();
    append_decimal(&mut label, kind.index() as u64 + 1);
    label.append("\n");
    label.append(kind.name());
    label.append("\n×");
    append_decimal(&mut label, game.buildings[kind.index()] as u64);
    proof {
        reveal_strlit("");
    }
    assert(label@ =~= decimal((kind.ordinal() + 1) as nat) + "\n"@ + kind.label() + "\n×"@
        + decimal(game@.buildings[kind.ordinal()] as nat));
    label
}

/// Which buttons of the selected tile's panel can be used.
#[derive(Clone, Copy, Debug, PartialEq, Eq, Structural)]
pub struct Selection {
    /// Turn and recover: any building but the hub.
    pub rotate: bool,
    pub recover: bool,
    /// Only an assembler has a recipe.
    pub recipe: bool,
    /// A finished item waits to be picked up.
    pub pick_up: bool,
}

/// The live buttons for the tile at column `x`, row `y`.
pub fn selection_buttons(game: &Game, x: usize, y: usize) -> (buttons: Selection)
    requires
        game@.wf(),
        x < 22,
        y < 15,
    ensures
        ({
            let b = game@.tiles[y * 22 + x].building;
            &&& buttons.rotate == (b matches Some(b) && b.kind != Kind::Hub)
            &&& buttons.recover == buttons.rotate
            &&& buttons.recipe == (b matches Some(b) && b.kind == Kind::Assembler)
            &&& buttons.pick_up == (b matches Some(b) && b.output is Some)
        }),
{
    let i = y * 22 + x;
    assert(game.tiles@[i as int]@ == game@.tiles[i as int]);
    match &game.tiles[i].building {
        Some(b) => {
            let movable = b.kind != Kind::Hub;
            Selection {
                rotate: movable,
                recover: movable,
                recipe: b.kind == Kind::Assembler,
                pick_up: b.output.is_some(),
            }
        },
        None => Selection { rotate: false, recover: false, recipe: false, pick_up: false },
    }
}

} // verus!
