//! Properties of the factory rules that span several operations.
use vstd::prelude::*;
use crate::multiplayer::Action;
use crate::sim::{lemma_tick_grows, same_fixture, cell, lemma_proposals, starting_model, starting_tile, neighbor, order_for, same_layout, work, BuildingModel, Direction, GameModel, Item, Kind, Recipe, ORDER_LIMIT};

verus! {

/// Four quarter turns bring a building back to where it faced.
pub proof fn lemma_four_turns_return(d: Direction)
    ensures
        d.turned().turned().turned().turned() == d,
        d.turned() != d,
{
}

/// Switching an assembler's recipe twice restores it.
pub proof fn lemma_recipe_switch_twice(r: Recipe)
    ensures
        r.other().other() == r,
        r.other() != r,
{
}

/// A grid index names exactly one cell: the column and row can be read back from it.
pub proof fn lemma_cell_round_trip(x: int, y: int)
    requires
        cell(x, y) is Some,
    ensures
        cell(x, y)->0 < 330,
        cell(x, y)->0 as int % 22 == x,
        cell(x, y)->0 as int / 22 == y,
{
    assert((y * 22 + x) % 22 == x && (y * 22 + x) / 22 == y) by (nonlinear_arith)
        requires
            0 <= x < 22,
            0 <= y < 15,
    ;
}

/// Placing a building and removing it again gives back the inventory and the floor
/// exactly as they were: nothing is lost or gained but the placement count and notice.
pub proof fn lemma_place_then_remove(g: GameModel, x: int, y: int, kind: Kind, d: Direction)
    requires
        g.wf(),
        g.place_refusal(x, y, kind) is None,
    ensures
        g.placed_at(x, y, kind, d).remove_refusal(x, y) is None,
        g.placed_at(x, y, kind, d).removed_at(x, y).tiles == g.tiles,
        g.placed_at(x, y, kind, d).removed_at(x, y).buildings == g.buildings,
        g.placed_at(x, y, kind, d).removed_at(x, y).stock == g.stock,
        g.placed_at(x, y, kind, d).removed_at(x, y).credits == g.credits,
        g.placed_at(x, y, kind, d).removed_at(x, y).delivered == g.delivered,
        g.placed_at(x, y, kind, d).removed_at(x, y).order_index == g.order_index,
        g.placed < u32::MAX ==> g.placed_at(x, y, kind, d).removed_at(x, y).placed == g.placed + 1,
{
    lemma_cell_round_trip(x, y);
    let i = cell(x, y)->0 as int;
    let p = g.placed_at(x, y, kind, d);
    let r = p.removed_at(x, y);
    assert(r.tiles =~= g.tiles);
    assert(r.buildings =~= g.buildings);
    assert(r.stock =~= g.stock);
}

proof fn lemma_transfer_keeps_layout(g: GameModel, p: (usize, usize, Item))
    requires
        g.wf(),
        p.0 < 330,
        p.1 < 330,
    ensures
        same_layout(g, g.transfer(p)),
        g.transfer(p).wf(),
{
    let t = g.transfer(p);
    assert forall|i: int| 0 <= i < g.tiles.len() implies {
        &&& (#[trigger] g.tiles[i]).deposit == t.tiles[i].deposit
        &&& match (g.tiles[i].building, t.tiles[i].building) {
            (None, None) => true,
            (Some(a), Some(b)) => a.kind == b.kind && a.direction == b.direction,
            _ => false,
        }
    } by {}
}

proof fn lemma_transfers_keep_layout(g: GameModel, ps: Seq<(usize, usize, Item)>)
    requires
        g.wf(),
        forall|j: int| 0 <= j < ps.len() ==> (#[trigger] ps[j]).0 < 330 && ps[j].1 < 330,
    ensures
        same_layout(g, g.transfers(ps)),
        g.transfers(ps).wf(),
    decreases ps.len(),
{
    if ps.len() > 0 {
        let rest = ps.drop_last();
        assert forall|j: int| 0 <= j < rest.len() implies (#[trigger] rest[j]).0 < 330 && rest[j].1
            < 330 by {
            assert(rest[j] == ps[j]);
        }
        lemma_transfers_keep_layout(g, rest);
        let mid = g.transfers(rest);
        assert(ps.last() == ps[ps.len() - 1]);
        lemma_transfer_keeps_layout(mid, ps.last());
        let t = mid.transfer(ps.last());
        assert forall|i: int| 0 <= i < g.tiles.len() implies {
            &&& (#[trigger] g.tiles[i]).deposit == t.tiles[i].deposit
            &&& match (g.tiles[i].building, t.tiles[i].building) {
                (None, None) => true,
                (Some(a), Some(b)) => a.kind == b.kind && a.direction == b.direction,
                _ => false,
            }
        } by {
            assert(mid.tiles[i].deposit == t.tiles[i].deposit);
        }
    }
}

proof fn lemma_proposals_in_range(g: GameModel, n: nat)
    requires
        g.wf(),
        n <= 330,
    ensures
        forall|j: int|
            0 <= j < g.proposals_upto(n).len() ==> (#[trigger] g.proposals_upto(n)[j]).0 < 330
                && g.proposals_upto(n)[j].1 < 330,
    decreases n,
{
    if n > 0 {
        let m = (n - 1) as nat;
        lemma_proposals_in_range(g, m);
        let prev = g.proposals_upto(m);
        let here = g.proposal_at(m as int);
        assert(here.len() <= 1);
        assert forall|j: int| 0 <= j < g.proposals_upto(n).len() implies (#[trigger] g.proposals_upto(
            n,
        )[j]).0 < 330 && g.proposals_upto(n)[j].1 < 330 by {
            if j < prev.len() {
                assert(g.proposals_upto(n)[j] == prev[j]);
            } else {
                assert(g.proposals_upto(n)[j] == here[j - prev.len()]);
                let b = g.tiles[m as int].building->0;
                match neighbor(m as int, b.direction) {
                    Some(t) => {},
                    None => {},
                }
            }
        }
    }
}

/// A tick moves items and advances work but never changes the layout: no building
/// appears, disappears, turns, or changes kind, and the hub stays where it is.
pub proof fn lemma_tick_keeps_layout(g: GameModel)
    requires
        g.wf(),
    ensures
        same_layout(g, g.ticked()),
        g.ticked().wf(),
{
    if !g.paused {
        let started = GameModel { ticks: (g.ticks + 1) as u64, ..g };
        lemma_proposals_in_range(started, 330);
        lemma_transfers_keep_layout(started, started.proposals());
        let moved = started.transfers(started.proposals());
        let done = moved.production();
        assert forall|i: int| 0 <= i < g.tiles.len() implies {
            &&& (#[trigger] g.tiles[i]).deposit == done.tiles[i].deposit
            &&& match (g.tiles[i].building, done.tiles[i].building) {
                (None, None) => true,
                (Some(a), Some(b)) => a.kind == b.kind && a.direction == b.direction,
                _ => false,
            }
        } by {
            assert(started.tiles[i] == g.tiles[i]);
            assert(moved.tiles[i].deposit == started.tiles[i].deposit);
        }
    }
}


/// A building has one input slot per item, and a furnace or assembler holds at most eight
/// of each input.
pub open spec fn building_within_capacity(b: BuildingModel) -> bool {
    &&& b.input.len() == 6
    &&& (b.kind == Kind::Furnace || b.kind == Kind::Assembler) ==> forall|k: int|
        0 <= k < 6 ==> #[trigger] b.input[k] <= 8
}

/// Every furnace and assembler holds at most eight of each input.
pub open spec fn within_capacity(g: GameModel) -> bool {
    forall|i: int|
        0 <= i < g.tiles.len() ==> ((#[trigger] g.tiles[i]).building matches Some(b)
            ==> building_within_capacity(b))
}

proof fn lemma_receive_keeps_capacity(g: GameModel, to: int, item: Item)
    requires
        g.wf(),
        within_capacity(g),
        0 <= to < 330,
        g.tiles[to].building matches Some(b) && b.takes(item),
    ensures
        within_capacity(g.receive(to, item)),
        g.receive(to, item).tiles.len() == g.tiles.len(),
{
    let t = g.receive(to, item);
    let b = g.tiles[to].building->0;
    assert forall|i: int|
        0 <= i < t.tiles.len() implies ((#[trigger] t.tiles[i]).building matches Some(c)
            ==> building_within_capacity(c)) by {
        if i == to {
            if b.kind == Kind::Furnace || b.kind == Kind::Assembler {
                let c = t.tiles[i].building->0;
                assert forall|k: int| 0 <= k < 6 implies #[trigger] c.input[k] <= 8 by {
                    if k == item.ordinal() {
                        assert(b.input[k] < 8);
                    } else {
                        assert(c.input[k] == b.input[k]);
                    }
                }
            }
        } else {
            assert(t.tiles[i] == g.tiles[i]);
        }
    }
}

proof fn lemma_transfer_keeps_capacity(g: GameModel, p: (usize, usize, Item))
    requires
        g.wf(),
        within_capacity(g),
        p.0 < 330,
        p.1 < 330,
    ensures
        within_capacity(g.transfer(p)),
{
    let from = p.0 as int;
    let to = p.1 as int;
    let item = p.2;
    if let Some(src) = g.tiles[from].building {
        if src.output == Some(item) && (match g.tiles[to].building {
            Some(dst) => dst.takes(item),
            None => false,
        }) {
            let emptied = BuildingModel {
                output: None,
                split_next: if src.kind == Kind::Splitter {
                    !src.split_next
                } else {
                    src.split_next
                },
                ..src
            };
            let mid = g.with_building(from, emptied);
            assert forall|i: int|
                0 <= i < mid.tiles.len() implies ((#[trigger] mid.tiles[i]).building matches Some(c)
                    ==> building_within_capacity(c)) by {
                if i == from {
                    assert(emptied.input == src.input);
                    assert(g.tiles[from].building matches Some(c) ==> building_within_capacity(c));
                } else {
                    assert(mid.tiles[i] == g.tiles[i]);
                }
            }
            if from == to {
                assert(mid.tiles[to].building == Some(emptied));
            }
            if from != to {
                assert(mid.tiles[to] == g.tiles[to]);
            }
            if mid.tiles[to].building matches Some(b) && b.takes(item) {
                lemma_receive_keeps_capacity(mid, to, item);
            }
        }
    }
}

proof fn lemma_transfers_keep_capacity(g: GameModel, ps: Seq<(usize, usize, Item)>)
    requires
        g.wf(),
        within_capacity(g),
        forall|j: int| 0 <= j < ps.len() ==> (#[trigger] ps[j]).0 < 330 && ps[j].1 < 330,
    ensures
        within_capacity(g.transfers(ps)),
    decreases ps.len(),
{
    if ps.len() > 0 {
        let rest = ps.drop_last();
        assert forall|j: int| 0 <= j < rest.len() implies (#[trigger] rest[j]).0 < 330 && rest[j].1
            < 330 by {
            assert(rest[j] == ps[j]);
        }
        lemma_transfers_keep_capacity(g, rest);
        lemma_transfers_keep_layout(g, rest);
        assert(ps.last() == ps[ps.len() - 1]);
        lemma_transfer_keeps_capacity(g.transfers(rest), ps.last());
    }
}

proof fn lemma_work_keeps_capacity(b: BuildingModel, deposit: Option<Item>)
    requires
        building_within_capacity(b),
    ensures
        building_within_capacity(work(b, deposit).0),
{
    let c = work(b, deposit).0;
    if c.kind == Kind::Furnace || c.kind == Kind::Assembler {
        assert forall|k: int| 0 <= k < 6 implies #[trigger] c.input[k] <= 8 by {
            assert(b.input[k] <= 8);
        }
    }
}

/// A tick never overfills a furnace or an assembler: a building takes an input only while it
/// holds fewer than eight of it, and working only uses inputs up.
pub proof fn lemma_tick_keeps_capacity(g: GameModel)
    requires
        g.wf(),
        within_capacity(g),
    ensures
        within_capacity(g.ticked()),
{
    if !g.paused {
        let started = GameModel { ticks: (g.ticks + 1) as u64, ..g };
        lemma_proposals_in_range(started, 330);
        lemma_transfers_keep_capacity(started, started.proposals());
        lemma_transfers_keep_layout(started, started.proposals());
        let moved = started.transfers(started.proposals());
        let done = moved.production();
        assert forall|i: int|
            0 <= i < done.tiles.len() implies ((#[trigger] done.tiles[i]).building matches Some(c)
                ==> building_within_capacity(c)) by {
            let t = moved.tiles[i];
            if let Some(b) = t.building {
                lemma_work_keeps_capacity(b, t.deposit);
            }
        }
    }
}

/// Loading an item by hand never overfills a building either.
pub proof fn lemma_inject_keeps_capacity(g: GameModel, x: int, y: int, item: Item)
    requires
        g.wf(),
        within_capacity(g),
        g.inject_refusal(x, y, item) is None,
    ensures
        within_capacity(g.injected(x, y, item)),
{
    lemma_cell_round_trip(x, y);
    let i = cell(x, y)->0 as int;
    let taken = GameModel {
        stock: g.stock.update(item.ordinal(), (g.stock[item.ordinal()] - 1) as u16),
        ..g
    };
    assert(taken.tiles == g.tiles);
    lemma_receive_keeps_capacity(taken, i, item);
}

/// The current contract is still open: fewer items have been counted towards it than it
/// asks for.
pub open spec fn contract_open(g: GameModel) -> bool {
    g.order_progress < g.order().amount
}

proof fn lemma_deliver_keeps_contract_open(g: GameModel, item: Item)
    requires
        contract_open(g),
        g.hub_fits(item),
    ensures
        contract_open(g.deliver(item)),
{
    let d = GameModel {
        delivered: g.delivered.update(item.ordinal(), (g.delivered[item.ordinal()] + 1) as u32),
        ..g
    };
    if g.order().item == item && g.order_progress + 1 >= g.order().amount {
        let n = (g.order_index + 1) as u32;
        assert(order_for(n, g.first_order_amount, g.first_order_reward).amount > 0) by {
            if n >= 3 {
                assert(8 + (n - 3) * 3 >= 8);
                assert(8 + (n - 3) * 3 <= u32::MAX) by (nonlinear_arith)
                    requires
                        3 <= n <= ORDER_LIMIT,
                ;
            }
        }
    }
}

proof fn lemma_receive_keeps_contract_open(g: GameModel, to: int, item: Item)
    requires
        contract_open(g),
        g.receive_fits(to, item),
    ensures
        contract_open(g.receive(to, item)),
{
    if let Some(b) = g.tiles[to].building {
        if b.kind == Kind::Hub {
            lemma_deliver_keeps_contract_open(g, item);
        }
    }
}

proof fn lemma_transfers_keep_contract_open(g: GameModel, ps: Seq<(usize, usize, Item)>, i: int)
    requires
        g.wf(),
        contract_open(g),
        g.moves_fit(ps),
        forall|j: int|
            0 <= j < ps.len() ==> (#[trigger] ps[j]).0 < 330 && ps[j].1 < 330 && ps[j].0 != ps[j].1,
        0 <= i <= ps.len(),
    ensures
        contract_open(g.transfers(ps.take(i))),
    decreases i,
{
    if i == 0 {
        assert(ps.take(0) =~= Seq::<(usize, usize, Item)>::empty());
    } else {
        lemma_transfers_keep_contract_open(g, ps, i - 1);
        assert(ps.take(i).drop_last() =~= ps.take(i - 1));
        let mid = g.transfers(ps.take(i - 1));
        let p = ps[i - 1];
        assert(mid.step_fits(p));
        assert forall|j: int| 0 <= j < ps.take(i - 1).len() implies (#[trigger] ps.take(i - 1)[j]).0
            < 330 && ps.take(i - 1)[j].1 < 330 by {
            assert(ps.take(i - 1)[j] == ps[j]);
        }
        lemma_transfers_keep_layout(g, ps.take(i - 1));
        if let Some(src) = mid.tiles[p.0 as int].building {
            if src.output == Some(p.2) && (match mid.tiles[p.1 as int].building {
                Some(dst) => dst.takes(p.2),
                None => false,
            }) {
                let emptied = BuildingModel {
                    output: None,
                    split_next: if src.kind == Kind::Splitter {
                        !src.split_next
                    } else {
                        src.split_next
                    },
                    ..src
                };
                let w = mid.with_building(p.0 as int, emptied);
                assert(w.tiles[p.1 as int] == mid.tiles[p.1 as int]);
                lemma_receive_keeps_contract_open(w, p.1 as int, p.2);
            }
        }
    }
}

/// A new factory starts with its first contract open.
pub proof fn lemma_new_contract_open()
    ensures
        contract_open(starting_model()),
{
}

/// A tick never leaves a contract overfilled: when an item completes the current contract,
/// the count starts again from zero for the next one, which always asks for something.
pub proof fn lemma_tick_keeps_contract_open(g: GameModel)
    requires
        g.wf(),
        !g.paused ==> g.tick_safe(),
        contract_open(g),
    ensures
        contract_open(g.ticked()),
{
    if !g.paused {
        let started = GameModel { ticks: (g.ticks + 1) as u64, ..g };
        lemma_proposals(started, 330);
        let ps = started.proposals();
        lemma_transfers_keep_contract_open(started, ps, ps.len() as int);
        assert(ps.take(ps.len() as int) =~= ps);
    }
}

/// Loading an item by hand keeps the contract open too.
pub proof fn lemma_inject_keeps_contract_open(g: GameModel, x: int, y: int, item: Item)
    requires
        g.wf(),
        contract_open(g),
        g.inject_refusal(x, y, item) is None,
        g.inject_fits(x, y, item),
    ensures
        contract_open(g.injected(x, y, item)),
{
    lemma_cell_round_trip(x, y);
    let i = cell(x, y)->0 as int;
    let taken = GameModel {
        stock: g.stock.update(item.ordinal(), (g.stock[item.ordinal()] - 1) as u16),
        ..g
    };
    lemma_receive_keeps_contract_open(taken, i, item);
}

/// The hub's cell.
pub open spec fn hub_cell() -> int {
    7int * 22 + 18
}

/// The shape every factory reached from a new one keeps: the full floor, the one hub at
/// column 18, row 7 facing west and no other hub, furnaces and assemblers within capacity,
/// and every miner on an ore deposit.
pub open spec fn playable_shape(g: GameModel) -> bool {
    &&& g.wf()
    &&& g.hub == seq![18usize, 7usize]
    &&& g.tiles[hub_cell()].building matches Some(b) && b.kind == Kind::Hub && b.direction
        == Direction::West
    &&& forall|i: int|
        0 <= i < g.tiles.len() && i != hub_cell() ==> ((#[trigger] g.tiles[i]).building matches Some(b)
            ==> b.kind != Kind::Hub)
    &&& forall|i: int|
        0 <= i < g.tiles.len() ==> ((#[trigger] g.tiles[i]).building matches Some(b) && b.kind
            == Kind::Miner ==> g.tiles[i].deposit is Some)
    &&& within_capacity(g)
}

/// A new factory has that shape.
pub proof fn lemma_new_shape()
    ensures
        playable_shape(starting_model()),
{
    let g = starting_model();
    assert forall|i: int|
        0 <= i < g.tiles.len() && i != hub_cell() implies ((#[trigger] g.tiles[i]).building matches Some(b)
            ==> b.kind != Kind::Hub) by {
        assert(g.tiles[i] == starting_tile(i));
    }
    assert forall|i: int|
        0 <= i < g.tiles.len() implies ((#[trigger] g.tiles[i]).building matches Some(b) && b.kind
            == Kind::Miner ==> g.tiles[i].deposit is Some) by {
        assert(g.tiles[i] == starting_tile(i));
    }
    assert forall|i: int|
        0 <= i < g.tiles.len() implies ((#[trigger] g.tiles[i]).building matches Some(b)
            ==> building_within_capacity(b)) by {
        assert(g.tiles[i] == starting_tile(i));
    }
    assert(g.tiles[hub_cell()] == starting_tile(hub_cell()));
}

proof fn lemma_same_layout_shape(g: GameModel, t: GameModel)
    requires
        playable_shape(g),
        same_layout(g, t),
        t.wf(),
        within_capacity(t),
    ensures
        playable_shape(t),
{
    assert(g.tiles[hub_cell()].deposit == t.tiles[hub_cell()].deposit);
    assert forall|i: int|
        0 <= i < t.tiles.len() && i != hub_cell() implies ((#[trigger] t.tiles[i]).building matches Some(b)
            ==> b.kind != Kind::Hub) by {
        assert(g.tiles[i].deposit == t.tiles[i].deposit);
    }
    assert forall|i: int|
        0 <= i < t.tiles.len() implies ((#[trigger] t.tiles[i]).building matches Some(b) && b.kind
            == Kind::Miner ==> t.tiles[i].deposit is Some) by {
        assert(g.tiles[i].deposit == t.tiles[i].deposit);
    }
}

/// Every command keeps that shape, whether it is carried out or refused (a refused command
/// changes nothing): placing, removing, turning, switching a recipe, buying, loading by
/// hand, picking up, pausing, and a tick.
#[verifier::rlimit(40)]
pub proof fn lemma_commands_keep_shape(
    g: GameModel,
    x: int,
    y: int,
    kind: Kind,
    d: Direction,
    item: Item,
    paused: bool,
)
    requires
        playable_shape(g),
    ensures
        g.place_refusal(x, y, kind) is None ==> playable_shape(g.placed_at(x, y, kind, d)),
        g.remove_refusal(x, y) is None ==> playable_shape(g.removed_at(x, y)),
        g.rotate_refusal(x, y) is None ==> playable_shape(g.rotated(x, y)),
        g.recipe_refusal(x, y) is None ==> playable_shape(g.recipe_switched(x, y)),
        g.buy_refusal(kind) is None ==> playable_shape(g.bought(kind)),
        g.inject_refusal(x, y, item) is None ==> playable_shape(g.injected(x, y, item)),
        g.take_refusal(x, y) is None ==> playable_shape(g.taken(x, y)),
        playable_shape(GameModel { paused, ..g }),
        playable_shape(g.ticked()),
{
    if g.place_refusal(x, y, kind) is None {
        lemma_cell_round_trip(x, y);
        let t = g.placed_at(x, y, kind, d);
        let c = cell(x, y)->0 as int;
        assert forall|i: int| 0 <= i < t.tiles.len() implies ((#[trigger] t.tiles[i]).building matches Some(b)
            ==> building_within_capacity(b)) by {
            if i != c {
                assert(t.tiles[i] == g.tiles[i]);
            }
        }
        assert forall|i: int|
            0 <= i < t.tiles.len() && i != hub_cell() implies ((#[trigger] t.tiles[i]).building matches Some(b)
                ==> b.kind != Kind::Hub) by {
            if i != c {
                assert(t.tiles[i] == g.tiles[i]);
            }
        }
        assert forall|i: int|
            0 <= i < t.tiles.len() implies ((#[trigger] t.tiles[i]).building matches Some(b) && b.kind
                == Kind::Miner ==> t.tiles[i].deposit is Some) by {
            if i != c {
                assert(t.tiles[i] == g.tiles[i]);
            }
        }
        assert(c != hub_cell());
    }
    if g.remove_refusal(x, y) is None {
        lemma_cell_round_trip(x, y);
        let t = g.removed_at(x, y);
        let c = cell(x, y)->0 as int;
        assert(c != hub_cell());
        assert forall|i: int| 0 <= i < t.tiles.len() implies ((#[trigger] t.tiles[i]).building matches Some(b)
            ==> building_within_capacity(b)) by {
            if i != c {
                assert(t.tiles[i] == g.tiles[i]);
            }
        }
        assert forall|i: int|
            0 <= i < t.tiles.len() && i != hub_cell() implies ((#[trigger] t.tiles[i]).building matches Some(b)
                ==> b.kind != Kind::Hub) by {
            if i != c {
                assert(t.tiles[i] == g.tiles[i]);
            }
        }
        assert forall|i: int|
            0 <= i < t.tiles.len() implies ((#[trigger] t.tiles[i]).building matches Some(b) && b.kind
                == Kind::Miner ==> t.tiles[i].deposit is Some) by {
            if i != c {
                assert(t.tiles[i] == g.tiles[i]);
            }
        }
    }
    if g.rotate_refusal(x, y) is None {
        lemma_cell_round_trip(x, y);
        let b = g.tiles[cell(x, y)->0 as int].building->0;
        lemma_with_building_shape_at(g, cell(x, y)->0 as int, BuildingModel { direction: b.direction.turned(), ..b });
    }
    if g.recipe_refusal(x, y) is None {
        lemma_cell_round_trip(x, y);
        let b = g.tiles[cell(x, y)->0 as int].building->0;
        lemma_with_building_shape_at(g, cell(x, y)->0 as int, BuildingModel { recipe: b.recipe.other(), progress: 0, ..b });
    }
    if g.take_refusal(x, y) is None {
        lemma_cell_round_trip(x, y);
        let b = g.tiles[cell(x, y)->0 as int].building->0;
        lemma_with_building_shape_at(g, cell(x, y)->0 as int, BuildingModel { output: None, ..b });
    }
    if g.inject_refusal(x, y, item) is None {
        lemma_inject_keeps_capacity(g, x, y, item);
        lemma_cell_round_trip(x, y);
        let i = cell(x, y)->0 as int;
        let taken = GameModel {
            stock: g.stock.update(item.ordinal(), (g.stock[item.ordinal()] - 1) as u16),
            ..g
        };
        let b = taken.tiles[i].building->0;
        if b.kind == Kind::Furnace || b.kind == Kind::Assembler {
            lemma_with_building_shape_at(taken, i, BuildingModel {
                input: b.input.update(item.ordinal(), (b.input[item.ordinal()] + 1) as u16),
                ..b
            });
        } else if b.kind == Kind::Belt || b.kind == Kind::Splitter {
            lemma_with_building_shape_at(taken, i, BuildingModel { output: Some(item), ..b });
        }
    }
    lemma_tick_keeps_layout(g);
    lemma_tick_keeps_capacity(g);
    lemma_same_layout_shape(g, g.ticked());
}

/// Replacing the building on tile `i` by one of the same kind, within capacity, and facing
/// the same way wherever it is the hub, keeps the shape.
proof fn lemma_with_building_shape_at(g: GameModel, i: int, b: BuildingModel)
    requires
        playable_shape(g),
        0 <= i < 330,
        g.tiles[i].building matches Some(a) && a.kind == b.kind && (a.kind == Kind::Hub
            ==> a.direction == b.direction),
        building_within_capacity(b),
    ensures
        playable_shape(g.with_building(i, b)),
        playable_shape(GameModel { notice: g.with_building(i, b).notice, ..g.with_building(i, b) }),
{
    let t = g.with_building(i, b);
    assert forall|j: int| 0 <= j < t.tiles.len() implies ((#[trigger] t.tiles[j]).building matches Some(c)
        ==> building_within_capacity(c)) by {
        if j != i {
            assert(t.tiles[j] == g.tiles[j]);
        }
    }
    assert forall|j: int|
        0 <= j < t.tiles.len() && j != hub_cell() implies ((#[trigger] t.tiles[j]).building matches Some(c)
            ==> c.kind != Kind::Hub) by {
        if j != i {
            assert(t.tiles[j] == g.tiles[j]);
        }
    }
    assert forall|j: int|
        0 <= j < t.tiles.len() implies ((#[trigger] t.tiles[j]).building matches Some(c) && c.kind
            == Kind::Miner ==> t.tiles[j].deposit is Some) by {
        if j != i {
            assert(t.tiles[j] == g.tiles[j]);
        }
    }
    if i != hub_cell() {
        assert(t.tiles[hub_cell()] == g.tiles[hub_cell()]);
    }
}

/// Loading an item by hand takes exactly one of it from the inventory and nothing else.
pub proof fn lemma_inject_takes_one(g: GameModel, x: int, y: int, item: Item)
    requires
        g.wf(),
        g.inject_refusal(x, y, item) is None,
    ensures
        g.injected(x, y, item).stock == g.stock.update(
            item.ordinal(),
            (g.stock[item.ordinal()] - 1) as u16,
        ),
        g.stock[item.ordinal()] > 0,
{
    lemma_cell_round_trip(x, y);
}

/// One step of play: a command (carried out, or refused and so changing nothing) or a tick.
pub enum Step {
    Command(Action),
    Tick,
}

/// The factory after one step.
pub open spec fn stepped(g: GameModel, step: Step) -> GameModel {
    match step {
        Step::Command(a) => if a.refusal(g) is Some {
            g
        } else {
            a.applied(g)
        },
        Step::Tick => g.ticked(),
    }
}

/// The factory a new one becomes after the steps, in order.
pub open spec fn played(steps: Seq<Step>) -> GameModel
    decreases steps.len(),
{
    if steps.len() == 0 {
        starting_model()
    } else {
        stepped(played(steps.drop_last()), steps.last())
    }
}

/// Every factory reached from a new one, by any commands and ticks in any order, has the
/// playable shape: the one hub at (18, 7) facing west and no other, furnaces and assemblers
/// within capacity, and every miner on ore.
pub proof fn lemma_every_reachable_factory_is_playable(steps: Seq<Step>)
    ensures
        playable_shape(played(steps)),
    decreases steps.len(),
{
    if steps.len() == 0 {
        lemma_new_shape();
    } else {
        lemma_every_reachable_factory_is_playable(steps.drop_last());
        let g = played(steps.drop_last());
        match steps.last() {
            Step::Tick => {
                lemma_commands_keep_shape(g, 0, 0, Kind::Miner, Direction::East, Item::IronOre, g.paused);
            },
            Step::Command(a) => match a {
                Action::Place { x, y, kind, direction } => {
                    lemma_commands_keep_shape(g, x as int, y as int, kind, direction, Item::IronOre, g.paused);
                },
                Action::Remove { x, y } => {
                    lemma_commands_keep_shape(g, x as int, y as int, Kind::Miner, Direction::East, Item::IronOre, g.paused);
                },
                Action::Rotate { x, y } => {
                    lemma_commands_keep_shape(g, x as int, y as int, Kind::Miner, Direction::East, Item::IronOre, g.paused);
                },
                Action::Recipe { x, y } => {
                    lemma_commands_keep_shape(g, x as int, y as int, Kind::Miner, Direction::East, Item::IronOre, g.paused);
                },
                Action::TakeOutput { x, y } => {
                    lemma_commands_keep_shape(g, x as int, y as int, Kind::Miner, Direction::East, Item::IronOre, g.paused);
                },
                Action::Inject { x, y, item } => {
                    lemma_commands_keep_shape(g, x as int, y as int, Kind::Miner, Direction::East, item, g.paused);
                },
                Action::Buy { kind } => {
                    lemma_commands_keep_shape(g, 0, 0, kind, Direction::East, Item::IronOre, g.paused);
                },
                Action::TogglePause => {
                    lemma_commands_keep_shape(g, 0, 0, Kind::Miner, Direction::East, Item::IronOre, !g.paused);
                },
            },
        }
    }
}

/// A command sent as an `Action` is exactly the matching factory command: it is refused,
/// and otherwise changes the factory, as that command does.
pub proof fn lemma_action_is_the_command(a: Action, g: GameModel)
    ensures
        a matches Action::Place { x, y, kind, direction } ==> a.refusal(g) == g.place_refusal(x as int, y as int, kind)
            && a.applied(g) == g.placed_at(x as int, y as int, kind, direction),
        a matches Action::Remove { x, y } ==> a.refusal(g) == g.remove_refusal(x as int, y as int)
            && a.applied(g) == g.removed_at(x as int, y as int),
        a matches Action::Rotate { x, y } ==> a.refusal(g) == g.rotate_refusal(x as int, y as int)
            && a.applied(g) == g.rotated(x as int, y as int),
        a matches Action::Recipe { x, y } ==> a.refusal(g) == g.recipe_refusal(x as int, y as int)
            && a.applied(g) == g.recipe_switched(x as int, y as int),
        a matches Action::TakeOutput { x, y } ==> a.refusal(g) == g.take_refusal(x as int, y as int)
            && a.applied(g) == g.taken(x as int, y as int),
        a matches Action::Inject { x, y, item } ==> a.refusal(g) == g.inject_refusal(x as int, y as int, item)
            && a.applied(g) == g.injected(x as int, y as int, item),
        a matches Action::Buy { kind } ==> a.refusal(g) == g.buy_refusal(kind) && a.applied(g) == g.bought(kind),
        a is TogglePause ==> a.refusal(g) is None && a.applied(g) == (GameModel { paused: !g.paused, ..g }),
{
}

/// One tick, field by field: while paused nothing changes; otherwise the clock advances by
/// one, inventory, placements, hub and floor stay, every tile keeps its deposit and its
/// building's presence, kind, direction and recipe, and credits, building stock,
/// deliveries and production never drop. This holds wherever the tick overflows nothing.
pub proof fn lemma_one_tick(g: GameModel)
    requires
        g.wf(),
        !g.paused ==> g.tick_safe(),
    ensures
        g.paused ==> g.ticked() == g,
        !g.paused ==> {
            let t = g.ticked();
            &&& t.ticks == g.ticks + 1
            &&& t.stock == g.stock
            &&& t.placed == g.placed
            &&& t.hub == g.hub
            &&& t.terrain == g.terrain
            &&& t.tiles.len() == g.tiles.len()
            &&& forall|i: int| 0 <= i < g.tiles.len() ==> #[trigger] same_fixture(g.tiles[i], t.tiles[i])
            &&& t.credits >= g.credits
            &&& forall|k: int| 0 <= k < 5 ==> #[trigger] t.buildings[k] >= g.buildings[k]
            &&& forall|k: int| 0 <= k < 6 ==> #[trigger] t.delivered[k] >= g.delivered[k]
            &&& forall|k: int| 0 <= k < 6 ==> #[trigger] t.produced[k] >= g.produced[k]
        },
{
    lemma_tick_grows(g);
}

/// A furnace smelts the ore it uses up: when it finishes an iron ingot it used one iron ore,
/// when it finishes a copper ingot it used one copper ore, and it finishes nothing else.
/// Holding copper ore and no iron ore, a furnace two steps into its work finishes a copper
/// ingot; holding iron ore, an iron ingot.
pub proof fn lemma_furnace_smelts_the_ore_it_holds(b: BuildingModel, deposit: Option<Item>)
    requires
        b.kind == Kind::Furnace,
        b.input.len() == 6,
    ensures
        work(b, deposit).1 is Some ==> work(b, deposit).1 == Some(Item::IronBar) || work(b, deposit).1
            == Some(Item::CopperBar),
        work(b, deposit).1 == Some(Item::IronBar) ==> work(b, deposit).0.input[0] == b.input[0] - 1
            && work(b, deposit).0.input[1] == b.input[1],
        work(b, deposit).1 == Some(Item::CopperBar) ==> work(b, deposit).0.input[1] == b.input[1] - 1
            && work(b, deposit).0.input[0] == b.input[0],
        b.output is None && b.input[0] == 0 && b.input[1] > 0 && b.progress >= 2 ==> work(b, deposit).1
            == Some(Item::CopperBar) && work(b, deposit).0.output == Some(Item::CopperBar),
        b.output is None && b.input[0] > 0 && b.progress >= 2 ==> work(b, deposit).1 == Some(Item::IronBar)
            && work(b, deposit).0.output == Some(Item::IronBar),
{
}

/// A furnace takes only ore and an assembler only ingots, each while it holds fewer than
/// eight of it; a belt or splitter takes anything while empty; the hub takes anything; a
/// miner takes nothing.
pub proof fn lemma_what_buildings_take(b: BuildingModel, item: Item)
    requires
        b.input.len() == 6,
    ensures
        b.kind == Kind::Furnace ==> (b.takes(item) <==> ((item == Item::IronOre || item == Item::CopperOre)
            && b.input[item.ordinal()] < 8)),
        b.kind == Kind::Assembler ==> (b.takes(item) <==> ((item == Item::IronBar || item == Item::CopperBar)
            && b.input[item.ordinal()] < 8)),
        (b.kind == Kind::Belt || b.kind == Kind::Splitter) ==> (b.takes(item) <==> b.output is None),
        b.kind == Kind::Hub ==> b.takes(item),
        b.kind == Kind::Miner ==> !b.takes(item),
{
}

/// Loading a furnace by hand with anything but ore is refused, and so is loading an
/// assembler with anything but ingots.
pub proof fn lemma_hand_loading_needs_the_right_item(g: GameModel, x: int, y: int, item: Item)
    requires
        g.wf(),
        cell(x, y) matches Some(i) && g.tiles[i as int].building matches Some(b) && b.input.len() == 6
            && ((b.kind == Kind::Furnace && item != Item::IronOre && item != Item::CopperOre) || (b.kind
            == Kind::Assembler && item != Item::IronBar && item != Item::CopperBar)),
        g.stock[item.ordinal()] > 0,
    ensures
        g.inject_refusal(x, y, item) == Some("That building cannot take this item"@),
{
}

/// Recovering a building puts everything it held back into the inventory: every input slot,
/// and its finished item if it has one, each count stopping at the top of its range.
pub proof fn lemma_remove_refunds_every_slot(g: GameModel, x: int, y: int)
    requires
        g.wf(),
        g.remove_refusal(x, y) is None,
        g.tiles[cell(x, y)->0 as int].building->0.input.len() == 6,
    ensures
        ({
            let b = g.tiles[cell(x, y)->0 as int].building->0;
            forall|k: int| 0 <= k < 6 ==> {
                let total = g.stock[k] + b.input[k] + (if b.output matches Some(o) && o.ordinal() == k {
                    1int
                } else {
                    0int
                });
                #[trigger] g.removed_at(x, y).stock[k] == if total > 0xFFFF {
                    0xFFFF
                } else {
                    total
                }
            }
        }),
{
    let b = g.tiles[cell(x, y)->0 as int].building->0;
    let r = g.removed_at(x, y);
    assert forall|k: int| 0 <= k < 6 implies {
        let total = g.stock[k] + b.input[k] + (if b.output matches Some(o) && o.ordinal() == k {
            1int
        } else {
            0int
        });
        #[trigger] r.stock[k] == if total > 0xFFFF {
            0xFFFF
        } else {
            total
        }
    } by {
        if let Some(o) = b.output {
            if o.ordinal() == k {
                assert(r.stock[k] == crate::sim::saturate(crate::sim::saturate(g.stock[k] + b.input[k]) + 1));
            } else {
                assert(r.stock[k] == crate::sim::saturate(g.stock[k] + b.input[k]));
            }
        }
    }
}

/// Loading an item into a furnace or assembler by hand and then recovering the building
/// gives the item back: the inventory is as before, plus what the building held.
pub proof fn lemma_load_then_recover_gives_the_item_back(g: GameModel, x: int, y: int, item: Item)
    requires
        g.wf(),
        g.inject_refusal(x, y, item) is None,
        g.tiles[cell(x, y)->0 as int].building matches Some(b) && (b.kind == Kind::Furnace || b.kind
            == Kind::Assembler) && b.input.len() == 6 && b.output is None,
        forall|k: int| 0 <= k < 6 ==> #[trigger] g.stock[k] + g.tiles[cell(x, y)->0 as int].building->0.input[k] < 0xFFFF,
    ensures
        forall|k: int| 0 <= k < 6 ==> #[trigger] g.injected(x, y, item).removed_at(x, y).stock[k] == g.stock[k]
            + g.tiles[cell(x, y)->0 as int].building->0.input[k],
{
    lemma_cell_round_trip(x, y);
    let i = cell(x, y)->0 as int;
    let b = g.tiles[i].building->0;
    let h = g.injected(x, y, item);
    assert(h.tiles[i].building->0.input == b.input.update(item.ordinal(), (b.input[item.ordinal()] + 1) as u16));
    assert(h.remove_refusal(x, y) is None);
    lemma_remove_refunds_every_slot(h, x, y);
    assert forall|k: int| 0 <= k < 6 implies #[trigger] h.removed_at(x, y).stock[k] == g.stock[k] + b.input[k] by {
        assert(h.stock[k] == if k == item.ordinal() { g.stock[k] - 1 } else { g.stock[k] as int });
    }
}

/// An item that is not what the current contract asks for is counted as delivered and
/// changes nothing else: the contract, its progress, the credits and the building stock
/// stay. The item the contract asks for moves it on by one, and completes it, paying its
/// reward and the next contract starting from nothing, once it reaches the amount asked.
pub proof fn lemma_only_the_ordered_item_counts(g: GameModel, item: Item)
    requires
        g.wf(),
        g.hub_fits(item),
    ensures
        g.deliver(item).delivered[item.ordinal()] == g.delivered[item.ordinal()] + 1,
        g.order().item != item ==> {
            &&& g.deliver(item).order_progress == g.order_progress
            &&& g.deliver(item).order_index == g.order_index
            &&& g.deliver(item).credits == g.credits
            &&& g.deliver(item).buildings == g.buildings
        },
        g.order().item == item && g.order_progress + 1 < g.order().amount ==> {
            &&& g.deliver(item).order_progress == g.order_progress + 1
            &&& g.deliver(item).order_index == g.order_index
            &&& g.deliver(item).credits == g.credits
        },
        g.order().item == item && g.order_progress + 1 >= g.order().amount ==> {
            &&& g.deliver(item).order_progress == 0
            &&& g.deliver(item).order_index == g.order_index + 1
            &&& g.deliver(item).credits == g.credits + g.order().reward
        },
{
}

/// Delivering ore to the hub by hand never moves an ingot contract on.
pub proof fn lemma_ore_never_pays_for_ingots(g: GameModel, x: int, y: int, item: Item)
    requires
        g.wf(),
        g.inject_refusal(x, y, item) is None,
        g.inject_fits(x, y, item),
        g.tiles[cell(x, y)->0 as int].building matches Some(b) && b.kind == Kind::Hub,
        g.order().item != item,
    ensures
        g.injected(x, y, item).order_progress == g.order_progress,
        g.injected(x, y, item).order_index == g.order_index,
        g.injected(x, y, item).credits == g.credits,
        g.injected(x, y, item).delivered[item.ordinal()] == g.delivered[item.ordinal()] + 1,
{
    lemma_cell_round_trip(x, y);
}

/// Switching an assembler's recipe restarts its work: the other recipe, no progress, and
/// the same contents, output, kind and direction.
pub proof fn lemma_recipe_switch_restarts(g: GameModel, x: int, y: int)
    requires
        g.wf(),
        g.recipe_refusal(x, y) is None,
    ensures
        ({
            let i = cell(x, y)->0 as int;
            let before = g.tiles[i].building->0;
            let after = g.recipe_switched(x, y).tiles[i].building->0;
            &&& g.recipe_switched(x, y).tiles[i].building is Some
            &&& after.progress == 0
            &&& after.recipe != before.recipe
            &&& after.recipe.other() == before.recipe
            &&& after.input == before.input
            &&& after.output == before.output
            &&& after.kind == before.kind
            &&& after.direction == before.direction
        }),
{
    lemma_cell_round_trip(x, y);
}

} // verus!
