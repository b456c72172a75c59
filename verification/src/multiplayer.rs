//! Host-authoritative factory commands and what a shared snapshot may change.
use vstd::prelude::*;
use crate::sim::{same_layout, Direction, Game, GameModel, Item, Kind};

verus! {

/// A player command, sent to the host and applied there.
#[derive(Clone, Copy, Debug)]
pub enum Action {
    Place { x: u16, y: u16, kind: Kind, direction: Direction },
    Remove { x: u16, y: u16 },
    Rotate { x: u16, y: u16 },
    Recipe { x: u16, y: u16 },
    TakeOutput { x: u16, y: u16 },
    Inject { x: u16, y: u16, item: Item },
    Buy { kind: Kind },
    TogglePause,
}

impl Action {
    /// Commands that change which buildings stand where.
    pub open spec fn is_structural(self) -> bool {
        self is Place || self is Remove || self is Rotate
    }

    /// Why the factory refuses the command, if it does.
    pub open spec fn refusal(self, g: GameModel) -> Option<Seq<char>> {
        match self {
            Action::Place { x, y, kind, direction } => g.place_refusal(x as int, y as int, kind),
            Action::Remove { x, y } => g.remove_refusal(x as int, y as int),
            Action::Rotate { x, y } => g.rotate_refusal(x as int, y as int),
            Action::Recipe { x, y } => g.recipe_refusal(x as int, y as int),
            Action::TakeOutput { x, y } => g.take_refusal(x as int, y as int),
            Action::Inject { x, y, item } => g.inject_refusal(x as int, y as int, item),
            Action::Buy { kind } => g.buy_refusal(kind),
            Action::TogglePause => None,
        }
    }

    /// The factory after the command succeeds.
    pub open spec fn applied(self, g: GameModel) -> GameModel {
        match self {
            Action::Place { x, y, kind, direction } => g.placed_at(
                x as int,
                y as int,
                kind,
                direction,
            ),
            Action::Remove { x, y } => g.removed_at(x as int, y as int),
            Action::Rotate { x, y } => g.rotated(x as int, y as int),
            Action::Recipe { x, y } => g.recipe_switched(x as int, y as int),
            Action::TakeOutput { x, y } => g.taken(x as int, y as int),
            Action::Inject { x, y, item } => g.injected(x as int, y as int, item),
            Action::Buy { kind } => g.bought(kind),
            Action::TogglePause => GameModel { paused: !g.paused, ..g },
        }
    }

    /// Carrying out the command overflows no counter.
    pub open spec fn fits(self, g: GameModel) -> bool {
        match self {
            Action::Place { x, y, kind, direction } => g.place_fits(x as int, y as int, kind),
            Action::Remove { x, y } => g.remove_fits(x as int, y as int),
            Action::Inject { x, y, item } => g.inject_fits(x as int, y as int, item),
            Action::Buy { kind } => g.buy_fits(kind),
            _ => true,
        }
    }

    pub fn apply(&self, game: &mut Game) -> (result: Result<(), &'static str>)
        requires
            old(game)@.wf(),
            self.fits(old(game)@),
        ensures
            match self.refusal(old(game)@) {
                Some(message) => result matches Err(e) && e@ == message && final(game)@ == old(
                    game,
                )@,
                None => result is Ok && final(game)@ == self.applied(old(game)@),
            },
    {
        match *self {
            Action::Place { x, y, kind, direction } => game.place(
                x as usize,
                y as usize,
                kind,
                direction,
            ),
            Action::Remove { x, y } => game.remove(x as usize, y as usize),
            Action::Rotate { x, y } => game.rotate(x as usize, y as usize),
            Action::Recipe { x, y } => game.set_recipe(x as usize, y as usize),
            Action::TakeOutput { x, y } => game.take_output(x as usize, y as usize),
            Action::Inject { x, y, item } => game.inject(x as usize, y as usize, item),
            Action::Buy { kind } => game.buy(kind),
            Action::TogglePause => {
                game.paused = !game.paused;
                Ok(())
            },
        }
    }

    /// Whether carrying out the command on `game` overflows no counter.
    pub fn fits_now(&self, game: &Game) -> (fits: bool)
        requires
            game@.wf(),
        ensures
            fits == self.fits(game@),
    {
        match *self {
            Action::Place { x, y, kind, direction } => {
                if game.placed < u32::MAX || kind == Kind::Hub {
                    return true;
                }
                match Game::index(x as usize, y as usize) {
                    None => true,
                    Some(i) => {
                        assert(game.tiles@[i as int]@ == game@.tiles[i as int]);
                        game.tiles[i].building.is_some() || (kind == Kind::Miner
                            && game.tiles[i].deposit.is_none()) || game.buildings[kind.index()]
                            == 0
                    },
                }
            },
            Action::Remove { x, y } => match Game::index(x as usize, y as usize) {
                None => true,
                Some(i) => {
                    assert(game.tiles@[i as int]@ == game@.tiles[i as int]);
                    match game.tiles[i].building {
                        None => true,
                        Some(b) => b.kind == Kind::Hub || game.buildings[b.kind.index()]
                            < u16::MAX,
                    }
                },
            },
            Action::Inject { x, y, item } => match Game::index(x as usize, y as usize) {
                None => true,
                Some(i) => {
                    assert(game.tiles@[i as int]@ == game@.tiles[i as int]);
                    if game.stock[item.index()] == 0 {
                        return true;
                    }
                    let takes = match game.tiles[i].building {
                        Some(b) => b.accepts(item),
                        None => false,
                    };
                    !takes || game.receive_fits_now(i, item)
                },
            },
            Action::Buy { kind } => kind == Kind::Hub || game.credits < kind.price()
                || game.buildings[kind.index()] < u16::MAX,
            _ => true,
        }
    }

    pub fn structural(&self) -> (structural: bool)
        ensures
            structural == self.is_structural(),
    {
        match self {
            Action::Place { .. } | Action::Remove { .. } | Action::Rotate { .. } => true,
            _ => false,
        }
    }
}

/// A message between the members of a lobby.
pub enum Message {
    /// A guest's command, numbered by the guest.
    Command { sequence: u64, action: Action },
    /// One part of a factory snapshot, as base64 text.
    StatePart { revision: u64, index: u16, count: u16, data: String },
    /// The host's refusal of a guest's command.
    Rejected { sequence: u64, reason: String },
    /// The sender is leaving the lobby.
    Goodbye,
}

/// A message with its text as characters.
pub enum MessageModel {
    Command { sequence: u64, action: Action },
    StatePart { revision: u64, index: u16, count: u16, data: Seq<char> },
    Rejected { sequence: u64, reason: Seq<char> },
    Goodbye,
}

impl View for Message {
    type V = MessageModel;

    open spec fn view(&self) -> MessageModel {
        match self {
            Message::Command { sequence, action } => MessageModel::Command {
                sequence: *sequence,
                action: *action,
            },
            Message::StatePart { revision, index, count, data } => MessageModel::StatePart {
                revision: *revision,
                index: *index,
                count: *count,
                data: data@,
            },
            Message::Rejected { sequence, reason } => MessageModel::Rejected {
                sequence: *sequence,
                reason: reason@,
            },
            Message::Goodbye => MessageModel::Goodbye,
        }
    }
}

/// What changed after network traffic was applied to the local presentation.
pub struct Change {
    pub state: bool,
    pub structural: bool,
    pub guest_lost: bool,
    pub join_failed: bool,
}

impl Default for Change {
    fn default() -> (change: Change)
        ensures
            !change.state && !change.structural && !change.guest_lost && !change.join_failed,
    {
        Change { state: false, structural: false, guest_lost: false, join_failed: false }
    }
}

/// Whether a replica must rebuild its presentation: the floor, the hub, a deposit, or a
/// building's kind or direction differs.
pub fn structural_difference(old: &Game, new: &Game) -> (different: bool)
    ensures
        different == !same_layout(old@, new@),
{
    if old.hub[0] != new.hub[0] || old.hub[1] != new.hub[1] {
        assert(old@.hub[0] != new@.hub[0] || old@.hub[1] != new@.hub[1]);
        return true;
    }
    assert(old@.hub =~= new@.hub);
    if old.terrain.len() != new.terrain.len() {
        return true;
    }
    let mut i: usize = 0;
    while i < old.terrain.len()
        invariant
            old.terrain@.len() == new.terrain@.len(),
            i <= old.terrain@.len(),
            forall|j: int| 0 <= j < i ==> old.terrain@[j] == new.terrain@[j],
        decreases old.terrain@.len() - i,
    {
        if old.terrain[i] != new.terrain[i] {
            return true;
        }
        i += 1;
    }
    assert(old@.terrain =~= new@.terrain);
    if old.tiles.len() != new.tiles.len() {
        return true;
    }
    let mut i: usize = 0;
    while i < old.tiles.len()
        invariant
            old@.hub == new@.hub,
            old@.terrain == new@.terrain,
            old.tiles@.len() == new.tiles@.len(),
            i <= old.tiles@.len(),
            forall|j: int|
                0 <= j < i ==> {
                    &&& (#[trigger] old@.tiles[j]).deposit == new@.tiles[j].deposit
                    &&& match (old@.tiles[j].building, new@.tiles[j].building) {
                        (None, None) => true,
                        (Some(x), Some(y)) => x.kind == y.kind && x.direction == y.direction,
                        _ => false,
                    }
                },
        decreases old.tiles@.len() - i,
    {
        let a = old.tiles[i];
        let b = new.tiles[i];
        let same_deposit = match (a.deposit, b.deposit) {
            (None, None) => true,
            (Some(x), Some(y)) => x == y,
            _ => false,
        };
        let same_building = match (a.building, b.building) {
            (None, None) => true,
            (Some(x), Some(y)) => x.kind == y.kind && x.direction == y.direction,
            _ => false,
        };
        if !same_deposit || !same_building {
            assert(!same_layout(old@, new@)) by {
                assert(old@.tiles[i as int] == a@);
                assert(new@.tiles[i as int] == b@);
            }
            return true;
        }
        i += 1;
    }
    false
}

/// Joining a lobby needs the Steam integration; without it the request is refused.
pub fn ensure_no_steam_join(join_lobby: Option<u64>) -> (result: Result<(), &'static str>)
    ensures
        join_lobby is Some ==> (result matches Err(e) && e@
            == "Steam multiplayer support is not compiled"@),
        join_lobby is None ==> result is Ok,
{
    if join_lobby.is_some() {
        return Err("Steam multiplayer support is not compiled");
    }
    Ok(())
}

/// Commands that are not structural never change the layout: a replica only needs to
/// rebuild after placing, removing or turning a building. (A refused command changes
/// nothing at all, by the contract of `apply`.)
pub proof fn lemma_non_structural_keeps_layout(a: Action, g: GameModel)
    requires
        g.wf(),
        !a.is_structural(),
        a.refusal(g) is None,
    ensures
        same_layout(g, a.applied(g)),
{
    let r = a.applied(g);
    match a {
        Action::Recipe { x, y } => {
            crate::factory_laws::lemma_cell_round_trip(x as int, y as int);
        },
        Action::TakeOutput { x, y } => {
            crate::factory_laws::lemma_cell_round_trip(x as int, y as int);
        },
        Action::Inject { x, y, item } => {
            crate::factory_laws::lemma_cell_round_trip(x as int, y as int);
        },
        _ => {},
    }
    assert forall|i: int| 0 <= i < g.tiles.len() implies {
        &&& (#[trigger] g.tiles[i]).deposit == r.tiles[i].deposit
        &&& match (g.tiles[i].building, r.tiles[i].building) {
            (None, None) => true,
            (Some(x), Some(y)) => x.kind == y.kind && x.direction == y.direction,
            _ => false,
        }
    } by {}
}

} // verus!
