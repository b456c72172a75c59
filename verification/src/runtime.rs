//! The factory screen's controls: which tool is in hand, where the view looks, which panels
//! are open, and what a button, a key or a command asks of the game, the lobby and the disk.
//! The window, the renderer and Steam are driven by the caller, which carries out the
//! returned effect.
use vstd::prelude::*;
use crate::multiplayer::{Action, Message, MessageModel};
use crate::sim::{Direction, Game, Item, Kind};
use crate::steam_net::{Network, NetworkModel};
use crate::text::{append_decimal, decimal, string_from_chars};
use crate::text_scan::{chars_of, parse_u64, parsed_u64, same_text, span_is};
use vstd::utf8::encode_utf8;

verus! {

/// The compass letter shown for a building's direction.
pub fn direction_name(direction: Direction) -> (name: &'static str)
    ensures
        name@ == match direction {
            Direction::North => "N"@,
            Direction::East => "E"@,
            Direction::South => "S"@,
            Direction::West => "W"@,
        },
{
    match direction {
        Direction::North => "N",
        Direction::East => "E",
        Direction::South => "S",
        Direction::West => "W",
    }
}

/// The screen on show.
#[derive(Clone, Copy, Debug, PartialEq, Eq, Structural)]
pub enum Screen {
    Menu,
    Factory,
}

/// What a click on the floor does.
#[derive(Clone, Copy, Debug, PartialEq, Eq, Structural)]
pub enum Tool {
    Build(Kind),
    Carry(Item),
    Inspect,
}

/// What the caller is to do after an input.
#[derive(Clone, Copy, Debug)]
pub enum Effect {
    Nothing,
    /// Carry out this factory command (see `Controls::perform`).
    Perform(Action),
    /// Save the factory.
    Persist,
    /// Save the factory and close the window.
    Exit,
    /// Restart the tick clock: play resumes now.
    Resume,
    /// Load the editor scene afresh and start a new factory from it.
    NewScene,
    /// Open Steam's friends overlay.
    SteamOverlay,
    /// Ask the lobby session to create a lobby.
    CreateLobby,
    /// Ask the lobby session to join this lobby.
    JoinLobby(u64),
    /// Ask the lobby session for an invitation dialog.
    InviteLobby,
    /// Leave the lobby; save first when hosting, and restore the local factory when a guest.
    LeaveLobby { persist: bool, restore: bool },
    /// Move keyboard focus to the next control of the scene's interface.
    FocusNext,
    /// Activate the focused control of the scene's interface.
    Activate,
}

/// A key as the controls read it.
pub enum Key {
    Escape,
    Backspace,
    Enter,
    Tab,
    F1,
    Space,
    ArrowLeft,
    ArrowRight,
    ArrowUp,
    ArrowDown,
    /// The text a key produced.
    Character(String),
    Other,
}

/// The controls as the rules see them.
pub struct ControlsState {
    pub screen: Screen,
    pub tool: Tool,
    pub facing: Direction,
    pub inspected: Option<(usize, usize)>,
    pub view_x: usize,
    pub view_y: usize,
    pub zoom: u32,
    pub help: bool,
    pub show_map: bool,
    pub error: Option<Seq<char>>,
    pub join_entry: bool,
    pub join_code: Seq<char>,
}

/// The factory screen's controls.
pub struct Controls {
    pub screen: Screen,
    pub tool: Tool,
    pub facing: Direction,
    /// The tile whose details are shown.
    pub inspected: Option<(usize, usize)>,
    /// The floor cell at the view's top left corner.
    pub view_x: usize,
    pub view_y: usize,
    /// Pixels per cell.
    pub zoom: u32,
    pub help: bool,
    pub show_map: bool,
    /// The last refusal or failure, shown in place of the game's notice.
    pub error: Option<String>,
    /// The lobby id field has the keyboard.
    pub join_entry: bool,
    /// The digits typed into the lobby id field.
    pub join_code: String,
}

impl View for Controls {
    type V = ControlsState;

    open spec fn view(&self) -> ControlsState {
        ControlsState {
            screen: self.screen,
            tool: self.tool,
            facing: self.facing,
            inspected: self.inspected,
            view_x: self.view_x,
            view_y: self.view_y,
            zoom: self.zoom,
            help: self.help,
            show_map: self.show_map,
            error: match self.error {
                Some(e) => Some(e@),
                None => None,
            },
            join_entry: self.join_entry,
            join_code: self.join_code@,
        }
    }
}

/// The `i`th kind of the build bar.
pub open spec fn buildable_kind(i: int) -> Kind {
    if i == 0 {
        Kind::Miner
    } else if i == 1 {
        Kind::Furnace
    } else if i == 2 {
        Kind::Assembler
    } else if i == 3 {
        Kind::Belt
    } else {
        Kind::Splitter
    }
}

/// The `i`th item of the inventory.
pub open spec fn carried_item(i: int) -> Item {
    if i == 0 {
        Item::IronOre
    } else if i == 1 {
        Item::CopperOre
    } else if i == 2 {
        Item::IronBar
    } else if i == 3 {
        Item::CopperBar
    } else if i == 4 {
        Item::Gear
    } else {
        Item::Circuit
    }
}

/// The number a control's name carries after `prefix`, read as `str::parse` reads it.
pub open spec fn numbered_control(name: Seq<char>, prefix: Seq<char>) -> Option<u64> {
    if name.len() >= prefix.len() && name.subrange(0, prefix.len() as int) == prefix {
        parsed_u64(name.subrange(prefix.len() as int, name.len() as int))
    } else {
        None
    }
}

/// The command of inspected-tile button `button` at (`x`, `y`).
pub open spec fn inspected_command(button: int, x: u16, y: u16) -> Action {
    if button == 0 {
        Action::Rotate { x, y }
    } else if button == 1 {
        Action::Recipe { x, y }
    } else if button == 2 {
        Action::TakeOutput { x, y }
    } else {
        Action::Remove { x, y }
    }
}

/// Pixels per cell `z`, kept within the zoom range.
pub open spec fn zoom_within(z: int) -> u32 {
    if z < 14 {
        14
    } else if z > 42 {
        42
    } else {
        z as u32
    }
}

/// `v` moved back by `by`, stopping at 0.
pub open spec fn back(v: usize, by: usize) -> usize {
    if v >= by {
        (v - by) as usize
    } else {
        0
    }
}

/// `v` moved forward by `by`, stopping at `last`.
pub open spec fn ahead(v: usize, by: usize, last: usize) -> usize {
    if v + by <= last {
        (v + by) as usize
    } else {
        last
    }
}

impl ControlsState {
    /// The view moved so that cell (`x`, `y`) shows near its middle.
    pub open spec fn centered(self, x: usize, y: usize) -> ControlsState {
        ControlsState {
            view_x: if back(x, 14) <= 21 {
                back(x, 14)
            } else {
                21
            },
            view_y: if back(y, 8) <= 14 {
                back(y, 8)
            } else {
                14
            },
            ..self
        }
    }

    /// The command that button `button` asks for on the inspected tile, if a tile is
    /// inspected: 0 turns it, 1 switches its recipe, 2 picks up its output, 3 recovers it.
    pub open spec fn on_inspected(self, button: int) -> Effect {
        match self.inspected {
            Some((x, y)) => Effect::Perform(inspected_command(button, x as u16, y as u16)),
            None => Effect::Nothing,
        }
    }

    /// What activating the control named `name` does, given the lobby session `n` and the
    /// hub's cell `hub`: the controls afterwards and the effect for the caller.
    pub open spec fn acted(self, name: Seq<char>, n: NetworkModel, hub: [usize; 2]) -> (ControlsState, Effect) {
        if let Some(i) = numbered_control(name, "tool-"@) {
            if i < 5 {
                (ControlsState { tool: Tool::Build(buildable_kind(i as int)), ..self }, Effect::Nothing)
            } else {
                (self, Effect::Nothing)
            }
        } else if let Some(i) = numbered_control(name, "carry-"@) {
            if i < 6 {
                (ControlsState { tool: Tool::Carry(carried_item(i as int)), ..self }, Effect::Nothing)
            } else {
                (self, Effect::Nothing)
            }
        } else if let Some(i) = numbered_control(name, "use-"@) {
            if i < 5 {
                (ControlsState { tool: Tool::Build(buildable_kind(i as int)), ..self }, Effect::Nothing)
            } else {
                (self, Effect::Nothing)
            }
        } else if let Some(i) = numbered_control(name, "buy-"@) {
            if i < 5 {
                (self, Effect::Perform(Action::Buy { kind: buildable_kind(i as int) }))
            } else {
                (self, Effect::Nothing)
            }
        } else if name == "pause"@ {
            (self, Effect::Perform(Action::TogglePause))
        } else if name == "menu-button"@ {
            (ControlsState { screen: Screen::Menu, ..self }, Effect::Persist)
        } else if name == "map-button"@ {
            (ControlsState { show_map: true, help: false, ..self }, Effect::Nothing)
        } else if name == "rotate-selected"@ {
            (self, self.on_inspected(0))
        } else if name == "recipe"@ {
            (self, self.on_inspected(1))
        } else if name == "pick-up"@ {
            (self, self.on_inspected(2))
        } else if name == "recover"@ {
            (self, self.on_inspected(3))
        } else if name == "inspect"@ {
            (ControlsState { tool: Tool::Inspect, ..self }, Effect::Nothing)
        } else if name == "orientation"@ {
            (ControlsState { facing: self.facing.turned(), ..self }, Effect::Nothing)
        } else if name == "pan-left"@ {
            (ControlsState { view_x: back(self.view_x, 8), ..self }, Effect::Nothing)
        } else if name == "pan-right"@ {
            (ControlsState { view_x: ahead(self.view_x, 8, 21), ..self }, Effect::Nothing)
        } else if name == "pan-up"@ {
            (ControlsState { view_y: back(self.view_y, 8), ..self }, Effect::Nothing)
        } else if name == "pan-down"@ {
            (ControlsState { view_y: ahead(self.view_y, 8, 14), ..self }, Effect::Nothing)
        } else if name == "hub"@ || name == "map-hub"@ {
            (ControlsState { show_map: false, ..self.centered(hub[0], hub[1]) }, Effect::Nothing)
        } else if name == "zoom-out"@ {
            (ControlsState { zoom: if self.zoom >= 16 { (self.zoom - 2) as u32 } else { 14 }, ..self }, Effect::Nothing)
        } else if name == "zoom-in"@ {
            (ControlsState { zoom: if self.zoom + 2 <= 42 { (self.zoom + 2) as u32 } else { 42 }, ..self }, Effect::Nothing)
        } else if name == "help-button"@ || name == "menu-help"@ {
            (ControlsState { help: true, show_map: false, ..self }, Effect::Nothing)
        } else if name == "close-help"@ {
            (ControlsState { help: false, ..self }, Effect::Nothing)
        } else if name == "continue"@ {
            if n.is_guest_or_joining() && !n.has_state() {
                (ControlsState { error: Some("Waiting for the host's factory state"@), ..self }, Effect::Nothing)
            } else {
                (ControlsState { screen: Screen::Factory, ..self }, Effect::Resume)
            }
        } else if name == "new"@ {
            if n.lobby is Some || n.pending {
                (ControlsState { error: Some("Leave the lobby before loading a new editor scene"@), ..self }, Effect::Nothing)
            } else {
                (self, Effect::NewScene)
            }
        } else if name == "quit"@ {
            (self, Effect::Exit)
        } else if name == "steam-friends"@ {
            (self, Effect::SteamOverlay)
        } else if name == "create-lobby"@ {
            (self, Effect::CreateLobby)
        } else if name == "join-lobby"@ {
            if self.join_code.len() == 0 {
                (ControlsState { join_entry: true, ..self }, Effect::Nothing)
            } else if let Some(id) = parsed_u64(self.join_code) {
                (ControlsState { join_entry: false, ..self }, Effect::JoinLobby(id))
            } else {
                (self, Effect::Nothing)
            }
        } else if name == "invite-lobby"@ {
            (self, Effect::InviteLobby)
        } else if name == "leave-lobby"@ {
            (
                ControlsState { join_entry: false, join_code: Seq::empty(), ..self },
                Effect::LeaveLobby { persist: n.is_host(), restore: n.is_guest_or_joining() },
            )
        } else if name == "close-map"@ {
            (ControlsState { show_map: false, ..self }, Effect::Nothing)
        } else if name == "map-nw"@ || name == "map-ne"@ || name == "map-sw"@ || name == "map-se"@ {
            let x: usize = if name == "map-ne"@ || name == "map-se"@ { 192 } else { 64 };
            let y: usize = if name == "map-sw"@ || name == "map-se"@ { 192 } else { 64 };
            (ControlsState { show_map: false, ..self.centered(x, y) }, Effect::Nothing)
        } else {
            (self, Effect::Nothing)
        }
    }

    /// What key `key` (its text `text`, for a character key) does, given the lobby session
    /// `n`: the controls afterwards and the effect for the caller. While the lobby id field has
    /// the keyboard, keys edit it (up to twenty digits); otherwise they drive the factory
    /// screen.
    pub open spec fn pressed(self, key: KeyModel) -> (ControlsState, Effect) {
        if self.join_entry {
            match key {
                KeyModel::Escape => (ControlsState { join_entry: false, ..self }, Effect::Nothing),
                KeyModel::Backspace => (ControlsState {
                    join_code: if self.join_code.len() > 0 {
                        self.join_code.drop_last()
                    } else {
                        self.join_code
                    },
                    ..self
                }, Effect::Nothing),
                KeyModel::Enter => match parsed_u64(self.join_code) {
                    Some(id) => (ControlsState { join_entry: false, ..self }, Effect::JoinLobby(id)),
                    None => (self, Effect::Nothing),
                },
                KeyModel::Character(text) => if all_ascii_digits(text) {
                    (ControlsState { join_code: typed(self.join_code, text), ..self }, Effect::Nothing)
                } else {
                    (self, Effect::Nothing)
                },
                _ => (self, Effect::Nothing),
            }
        } else {
            match key {
                KeyModel::Tab => (self, Effect::FocusNext),
                KeyModel::Enter => (self, Effect::Activate),
                KeyModel::Escape => if self.help {
                    (ControlsState { help: false, ..self }, Effect::Nothing)
                } else if self.show_map {
                    (ControlsState { show_map: false, ..self }, Effect::Nothing)
                } else if self.screen == Screen::Factory {
                    (ControlsState { screen: Screen::Menu, ..self }, Effect::Persist)
                } else {
                    (self, Effect::Nothing)
                },
                KeyModel::F1 => (ControlsState { help: !self.help, ..self }, Effect::Nothing),
                KeyModel::Space => if self.screen == Screen::Factory {
                    (self, Effect::Perform(Action::TogglePause))
                } else {
                    (self, Effect::Nothing)
                },
                KeyModel::ArrowLeft => (ControlsState { view_x: back(self.view_x, 8), ..self }, Effect::Nothing),
                KeyModel::ArrowRight => (ControlsState { view_x: ahead(self.view_x, 8, 21), ..self }, Effect::Nothing),
                KeyModel::ArrowUp => (ControlsState { view_y: back(self.view_y, 8), ..self }, Effect::Nothing),
                KeyModel::ArrowDown => (ControlsState { view_y: ahead(self.view_y, 8, 14), ..self }, Effect::Nothing),
                KeyModel::Character(text) => if text == "r"@ || text == "R"@ {
                    (ControlsState { facing: self.facing.turned(), ..self }, Effect::Nothing)
                } else if text == "i"@ || text == "I"@ {
                    (ControlsState { tool: Tool::Inspect, ..self }, Effect::Nothing)
                } else if text == "a"@ || text == "A"@ {
                    (ControlsState { view_x: back(self.view_x, 8), ..self }, Effect::Nothing)
                } else if text == "d"@ || text == "D"@ {
                    (ControlsState { view_x: ahead(self.view_x, 8, 21), ..self }, Effect::Nothing)
                } else if text == "w"@ || text == "W"@ {
                    (ControlsState { view_y: back(self.view_y, 8), ..self }, Effect::Nothing)
                } else if text == "s"@ || text == "S"@ {
                    (ControlsState { view_y: ahead(self.view_y, 8, 14), ..self }, Effect::Nothing)
                } else if text.len() == 1 && '1' <= text[0] <= '5' {
                    (ControlsState { tool: Tool::Build(buildable_kind(text[0] as int - '1' as int)), ..self }, Effect::Nothing)
                } else {
                    (self, Effect::Nothing)
                },
                _ => (self, Effect::Nothing),
            }
        }
    }
}

/// A key with its text as characters.
pub enum KeyModel {
    Escape,
    Backspace,
    Enter,
    Tab,
    F1,
    Space,
    ArrowLeft,
    ArrowRight,
    ArrowUp,
    ArrowDown,
    Character(Seq<char>),
    Other,
}

impl View for Key {
    type V = KeyModel;

    open spec fn view(&self) -> KeyModel {
        match self {
            Key::Escape => KeyModel::Escape,
            Key::Backspace => KeyModel::Backspace,
            Key::Enter => KeyModel::Enter,
            Key::Tab => KeyModel::Tab,
            Key::F1 => KeyModel::F1,
            Key::Space => KeyModel::Space,
            Key::ArrowLeft => KeyModel::ArrowLeft,
            Key::ArrowRight => KeyModel::ArrowRight,
            Key::ArrowUp => KeyModel::ArrowUp,
            Key::ArrowDown => KeyModel::ArrowDown,
            Key::Character(text) => KeyModel::Character(text@),
            Key::Other => KeyModel::Other,
        }
    }
}

/// Every character of `s` is an ASCII digit.
pub open spec fn all_ascii_digits(s: Seq<char>) -> bool {
    forall|i: int| 0 <= i < s.len() ==> '0' <= #[trigger] s[i] <= '9'
}

/// The lobby id field after typing the digits `text` into `code`: each digit is kept while
/// the field holds fewer than twenty bytes.
pub open spec fn typed(code: Seq<char>, text: Seq<char>) -> Seq<char>
    decreases text.len(),
{
    if text.len() == 0 {
        code
    } else {
        let before = typed(code, text.drop_last());
        if (encode_utf8(before).len() as usize) < 20 {
            before.push(text.last())
        } else {
            before
        }
    }
}

fn buildable_at(i: u64) -> (kind: Kind)
    requires
        i < 5,
    ensures
        kind == buildable_kind(i as int),
{
    if i == 0 {
        Kind::Miner
    } else if i == 1 {
        Kind::Furnace
    } else if i == 2 {
        Kind::Assembler
    } else if i == 3 {
        Kind::Belt
    } else {
        Kind::Splitter
    }
}

fn item_at(i: u64) -> (item: Item)
    requires
        i < 6,
    ensures
        item == carried_item(i as int),
{
    if i == 0 {
        Item::IronOre
    } else if i == 1 {
        Item::CopperOre
    } else if i == 2 {
        Item::IronBar
    } else if i == 3 {
        Item::CopperBar
    } else if i == 4 {
        Item::Gear
    } else {
        Item::Circuit
    }
}

fn number_after(s: &Vec<char>, prefix: &str) -> (n: Option<u64>)
    ensures
        n == numbered_control(s@, prefix@),
{
    let p = prefix.unicode_len();
    if s.len() < p {
        return None;
    }
    if !span_is(s, 0, p, prefix) {
        return None;
    }
    parse_u64(s, p, s.len())
}

fn back_by(v: usize, by: usize) -> (r: usize)
    ensures
        r == back(v, by),
{
    v.saturating_sub(by)
}

fn ahead_by(v: usize, by: usize, last: usize) -> (r: usize)
    ensures
        r == ahead(v, by, last),
{
    if v <= last && by <= last - v {
        v + by
    } else {
        last
    }
}

fn command_on(button: u8, x: usize, y: usize) -> (action: Action)
    ensures
        action == inspected_command(button as int, x as u16, y as u16),
{
    let (x, y) = (x as u16, y as u16);
    if button == 0 {
        Action::Rotate { x, y }
    } else if button == 1 {
        Action::Recipe { x, y }
    } else if button == 2 {
        Action::TakeOutput { x, y }
    } else {
        Action::Remove { x, y }
    }
}

/// What carrying out a command from the controls did.
pub enum Performed {
    /// On a guest: send this command message to the host, then note it as sent on the
    /// lobby session.
    Request(u64, Message),
    /// On a guest: the command could not be numbered for a host; the controls show why.
    Unsent,
    /// The command ran here; when it ran, `structural` says whether the floor's buildings
    /// must be redrawn and `resume` whether play resumed from pause.
    Ran { succeeded: bool, structural: bool, resume: bool },
}

impl Controls {
    /// The controls of a factory whose hub is at `hub`, opening on the factory or the menu;
    /// `error` is a problem to show from the start.
    pub fn new(start_playing: bool, hub: [usize; 2], error: Option<String>) -> (controls: Controls)
        ensures
            controls@ == (ControlsState {
                screen: if start_playing {
                    Screen::Factory
                } else {
                    Screen::Menu
                },
                tool: Tool::Build(Kind::Miner),
                facing: Direction::East,
                inspected: Some((hub[0], hub[1])),
                view_x: back(hub[0], 18),
                view_y: back(hub[1], 11),
                zoom: 32,
                help: false,
                show_map: false,
                error: match error {
                    Some(e) => Some(e@),
                    None => None,
                },
                join_entry: false,
                join_code: Seq::empty(),
            }),
    {
        Controls {
            screen: if start_playing {
                Screen::Factory
            } else {
                Screen::Menu
            },
            tool: Tool::Build(Kind::Miner),
            facing: Direction::East,
            inspected: Some((hub[0], hub[1])),
            view_x: back_by(hub[0], 18),
            view_y: back_by(hub[1], 11),
            zoom: 32,
            help: false,
            show_map: false,
            error,
            join_entry: false,
            join_code: String::new(),
        }
    }

    /// Inspects the hub at `hub` and centres the view on it.
    pub fn focus_hub(&mut self, hub: [usize; 2])
        ensures
            final(self)@ == (ControlsState { inspected: Some((hub[0], hub[1])), ..old(self)@ }).centered(hub[0], hub[1]),
    {
        self.inspected = Some((hub[0], hub[1]));
        self.center(hub[0], hub[1]);
    }

    /// Shows a factory that replaced the one on screen (a new one from the editor scene, or
    /// the local one again after leaving a lobby as a guest): its hub is inspected and in
    /// view, on the factory screen when `playing`, else on the menu.
    pub fn reopen(&mut self, hub: [usize; 2], playing: bool)
        ensures
            final(self)@ == (ControlsState {
                inspected: Some((hub[0], hub[1])),
                screen: if playing {
                    Screen::Factory
                } else {
                    Screen::Menu
                },
                ..old(self)@
            }).centered(hub[0], hub[1]),
    {
        self.focus_hub(hub);
        self.screen = if playing {
            Screen::Factory
        } else {
            Screen::Menu
        };
    }

    fn center(&mut self, x: usize, y: usize)
        ensures
            final(self)@ == old(self)@.centered(x, y),
    {
        let vx = back_by(x, 14);
        let vy = back_by(y, 8);
        self.view_x = if vx <= 21 {
            vx
        } else {
            21
        };
        self.view_y = if vy <= 14 {
            vy
        } else {
            14
        };
    }

    /// Shows `text` as the current problem.
    pub fn set_error(&mut self, text: &str)
        ensures
            final(self)@ == (ControlsState { error: Some(text@), ..old(self)@ }),
    {
        self.error = Some(String::from_str(text));
    }

    /// Turns the mouse wheel: in (closer) or out, by one step within the zoom range.
    pub fn wheel(&mut self, inward: bool)
        ensures
            final(self)@ == (ControlsState {
                zoom: zoom_within(if inward {
                    old(self)@.zoom + 2
                } else {
                    old(self)@.zoom - 2
                }),
                ..old(self)@
            }),
    {
        let z: u64 = if inward {
            self.zoom as u64 + 2
        } else if self.zoom >= 2 {
            (self.zoom - 2) as u64
        } else {
            0
        };
        self.zoom = if z < 14 {
            14
        } else if z > 42 {
            42
        } else {
            z as u32
        };
    }

    /// Activates the control named `name`, with the lobby session `network` and the hub at
    /// `hub`; returns what the caller is to do.
    pub fn action(&mut self, name: &str, network: &Network, hub: [usize; 2]) -> (effect: Effect)
        ensures
            (final(self)@, effect) == old(self)@.acted(name@, network@, hub),
    {
        let s = chars_of(name);
        assert(s@ == name@);
        if let Some(i) = number_after(&s, "tool-") {
            if i < 5 {
                self.tool = Tool::Build(buildable_at(i));
            }
            return Effect::Nothing;
        }
        if let Some(i) = number_after(&s, "carry-") {
            if i < 6 {
                self.tool = Tool::Carry(item_at(i));
            }
            return Effect::Nothing;
        }
        if let Some(i) = number_after(&s, "use-") {
            if i < 5 {
                self.tool = Tool::Build(buildable_at(i));
            }
            return Effect::Nothing;
        }
        if let Some(i) = number_after(&s, "buy-") {
            if i < 5 {
                return Effect::Perform(Action::Buy { kind: buildable_at(i) });
            }
            return Effect::Nothing;
        }
        if same_text(name, "pause") {
            Effect::Perform(Action::TogglePause)
        } else if same_text(name, "menu-button") {
            self.screen = Screen::Menu;
            Effect::Persist
        } else if same_text(name, "map-button") {
            self.show_map = true;
            self.help = false;
            Effect::Nothing
        } else if same_text(name, "rotate-selected") {
            self.inspected_effect(0)
        } else if same_text(name, "recipe") {
            self.inspected_effect(1)
        } else if same_text(name, "pick-up") {
            self.inspected_effect(2)
        } else if same_text(name, "recover") {
            self.inspected_effect(3)
        } else if same_text(name, "inspect") {
            self.tool = Tool::Inspect;
            Effect::Nothing
        } else if same_text(name, "orientation") {
            self.facing = self.facing.next();
            Effect::Nothing
        } else if same_text(name, "pan-left") {
            self.view_x = back_by(self.view_x, 8);
            Effect::Nothing
        } else if same_text(name, "pan-right") {
            self.view_x = ahead_by(self.view_x, 8, 21);
            Effect::Nothing
        } else if same_text(name, "pan-up") {
            self.view_y = back_by(self.view_y, 8);
            Effect::Nothing
        } else if same_text(name, "pan-down") {
            self.view_y = ahead_by(self.view_y, 8, 14);
            Effect::Nothing
        } else if same_text(name, "hub") || same_text(name, "map-hub") {
            self.center(hub[0], hub[1]);
            self.show_map = false;
            Effect::Nothing
        } else if same_text(name, "zoom-out") {
            self.zoom = if self.zoom >= 16 {
                self.zoom - 2
            } else {
                14
            };
            Effect::Nothing
        } else if same_text(name, "zoom-in") {
            self.zoom = if self.zoom <= 40 {
                self.zoom + 2
            } else {
                42
            };
            Effect::Nothing
        } else if same_text(name, "help-button") || same_text(name, "menu-help") {
            self.help = true;
            self.show_map = false;
            Effect::Nothing
        } else if same_text(name, "close-help") {
            self.help = false;
            Effect::Nothing
        } else if same_text(name, "continue") {
            if network.is_guest_or_joining() && !network.has_state() {
                self.error = Some(String::from_str("Waiting for the host's factory state"));
                Effect::Nothing
            } else {
                self.screen = Screen::Factory;
                Effect::Resume
            }
        } else if same_text(name, "new") {
            if network.lobby_id().is_some() || network.busy() {
                self.error = Some(
                    String::from_str("Leave the lobby before loading a new editor scene"),
                );
                Effect::Nothing
            } else {
                Effect::NewScene
            }
        } else if same_text(name, "quit") {
            Effect::Exit
        } else if same_text(name, "steam-friends") {
            Effect::SteamOverlay
        } else if same_text(name, "create-lobby") {
            Effect::CreateLobby
        } else if same_text(name, "join-lobby") {
            if self.join_code.unicode_len() == 0 {
                self.join_entry = true;
                return Effect::Nothing;
            }
            let code = chars_of(self.join_code.as_str());
            match parse_u64(&code, 0, code.len()) {
                Some(id) => {
                    assert(code@.subrange(0, code@.len() as int) =~= code@);
                    self.join_entry = false;
                    Effect::JoinLobby(id)
                },
                None => {
                    assert(code@.subrange(0, code@.len() as int) =~= code@);
                    Effect::Nothing
                },
            }
        } else if same_text(name, "invite-lobby") {
            Effect::InviteLobby
        } else if same_text(name, "leave-lobby") {
            let effect = Effect::LeaveLobby {
                persist: network.is_host(),
                restore: network.is_guest_or_joining(),
            };
            self.join_entry = false;
            self.join_code = String::new();
            effect
        } else if same_text(name, "close-map") {
            self.show_map = false;
            Effect::Nothing
        } else if same_text(name, "map-nw") || same_text(name, "map-ne") || same_text(name, "map-sw")
            || same_text(name, "map-se") {
            let east = same_text(name, "map-ne") || same_text(name, "map-se");
            let south = same_text(name, "map-sw") || same_text(name, "map-se");
            self.center(
                if east {
                    192
                } else {
                    64
                },
                if south {
                    192
                } else {
                    64
                },
            );
            self.show_map = false;
            Effect::Nothing
        } else {
            Effect::Nothing
        }
    }

    fn inspected_effect(&self, button: u8) -> (effect: Effect)
        ensures
            effect == self@.on_inspected(button as int),
    {
        match self.inspected {
            Some((x, y)) => Effect::Perform(command_on(button, x, y)),
            None => Effect::Nothing,
        }
    }
}

impl Controls {
    /// Handles a key press; returns what the caller is to do.
    pub fn key(&mut self, key: &Key) -> (effect: Effect)
        ensures
            (final(self)@, effect) == old(self)@.pressed(key@),
    {
        if self.join_entry {
            match key {
                Key::Escape => {
                    self.join_entry = false;
                },
                Key::Backspace => {
                    let mut code = chars_of(self.join_code.as_str());
                    if code.len() > 0 {
                        code.pop();
                        assert(code@ =~= old(self)@.join_code.drop_last());
                    }
                    self.join_code = string_from_chars(code.as_slice());
                },
                Key::Enter => {
                    let code = chars_of(self.join_code.as_str());
                    let parsed = parse_u64(&code, 0, code.len());
                    assert(code@.subrange(0, code@.len() as int) =~= code@);
                    if let Some(id) = parsed {
                        self.join_entry = false;
                        return Effect::JoinLobby(id);
                    }
                },
                Key::Character(text) => {
                    let digits = chars_of(text.as_str());
                    let mut k: usize = 0;
                    while k < digits.len()
                        invariant
                            k <= digits@.len(),
                            digits@ == text@,
                            forall|j: int| 0 <= j < k ==> '0' <= #[trigger] digits@[j] <= '9',
                            self@ == old(self)@,
                            old(self)@.join_entry,
                            key@ == KeyModel::Character(text@),
                        decreases digits@.len() - k,
                    {
                        if digits[k] < '0' || digits[k] > '9' {
                            assert(!all_ascii_digits(text@)) by {
                                assert(!('0' <= text@[k as int] <= '9'));
                            }
                            return Effect::Nothing;
                        }
                        k += 1;
                    }
                    let mut k: usize = 0;
                    while k < digits.len()
                        invariant
                            k <= digits@.len(),
                            digits@ == text@,
                            self@ == (ControlsState {
                                join_code: typed(old(self)@.join_code, text@.take(k as int)),
                                ..old(self)@
                            }),
                            old(self)@.join_entry,
                            key@ == KeyModel::Character(text@),
                            all_ascii_digits(text@),
                        decreases digits@.len() - k,
                    {
                        assert(text@.take(k + 1).drop_last() =~= text@.take(k as int));
                        assert(text@.take(k + 1).last() == text@[k as int]);
                        let ghost before = self.join_code@;
                        if self.join_code.as_str().len() < 20 {
                            let piece = text.as_str().substring_char(k, k + 1);
                            self.join_code.append(piece);
                            assert(self.join_code@ =~= before.push(text@[k as int]));
                        }
                        k += 1;
                    }
                    assert(text@.take(digits@.len() as int) =~= text@);
                },
                _ => {},
            }
            return Effect::Nothing;
        }
        match key {
            Key::Tab => Effect::FocusNext,
            Key::Enter => Effect::Activate,
            Key::Escape => {
                if self.help {
                    self.help = false;
                    Effect::Nothing
                } else if self.show_map {
                    self.show_map = false;
                    Effect::Nothing
                } else if self.screen == Screen::Factory {
                    self.screen = Screen::Menu;
                    Effect::Persist
                } else {
                    Effect::Nothing
                }
            },
            Key::F1 => {
                self.help = !self.help;
                Effect::Nothing
            },
            Key::Space => if self.screen == Screen::Factory {
                Effect::Perform(Action::TogglePause)
            } else {
                Effect::Nothing
            },
            Key::ArrowLeft => {
                self.view_x = back_by(self.view_x, 8);
                Effect::Nothing
            },
            Key::ArrowRight => {
                self.view_x = ahead_by(self.view_x, 8, 21);
                Effect::Nothing
            },
            Key::ArrowUp => {
                self.view_y = back_by(self.view_y, 8);
                Effect::Nothing
            },
            Key::ArrowDown => {
                self.view_y = ahead_by(self.view_y, 8, 14);
                Effect::Nothing
            },
            Key::Character(text) => {
                let t = text.as_str();
                if same_text(t, "r") || same_text(t, "R") {
                    self.facing = self.facing.next();
                } else if same_text(t, "i") || same_text(t, "I") {
                    self.tool = Tool::Inspect;
                } else if same_text(t, "a") || same_text(t, "A") {
                    self.view_x = back_by(self.view_x, 8);
                } else if same_text(t, "d") || same_text(t, "D") {
                    self.view_x = ahead_by(self.view_x, 8, 21);
                } else if same_text(t, "w") || same_text(t, "W") {
                    self.view_y = back_by(self.view_y, 8);
                } else if same_text(t, "s") || same_text(t, "S") {
                    self.view_y = ahead_by(self.view_y, 8, 14);
                } else if t.unicode_len() == 1 {
                    let c = t.get_char(0);
                    if '1' <= c && c <= '5' {
                        self.tool = Tool::Build(buildable_at((c as u32 - '1' as u32) as u64));
                    }
                }
                Effect::Nothing
            },
            Key::Backspace | Key::Other => Effect::Nothing,
        }
    }
}

impl Controls {
    /// Carries out a command from the controls: a guest numbers it for the host (the caller
    /// sends it, then notes it as sent on the lobby session, or shows the failure); a host or
    /// a solo player applies it to `game`, shows a refusal, and has the host share the result.
    pub fn perform(&mut self, action: Action, network: &mut Network, game: &mut Game) -> (performed: Performed)
        requires
            old(game)@.wf(),
            old(network)@.sequence < u64::MAX,
            !old(network)@.is_guest_or_joining() ==> action.fits(old(game)@),
        ensures
            ({
                let n = old(network)@;
                let g = old(game)@;
                if n.is_guest_or_joining() {
                    &&& final(game)@ == g
                    &&& if n.lobby is None {
                        &&& performed is Unsent
                        &&& final(network)@ == n
                        &&& final(self)@ == (ControlsState {
                            error: Some("wait for the host's lobby"@),
                            ..old(self)@
                        })
                    } else {
                        &&& final(network)@ == (NetworkModel {
                            sequence: (n.sequence + 1) as u64,
                            ..n
                        })
                        &&& match n.owner {
                            Some(owner) => {
                                &&& performed matches Performed::Request(peer, message) && peer
                                    == owner && message@ == (MessageModel::Command {
                                    sequence: (n.sequence + 1) as u64,
                                    action,
                                })
                                &&& final(self)@ == (ControlsState { error: None, ..old(self)@ })
                            },
                            None => {
                                &&& performed is Unsent
                                &&& final(self)@ == (ControlsState {
                                    error: Some("host is unavailable"@),
                                    ..old(self)@
                                })
                            },
                        }
                    }
                } else {
                    match action.refusal(g) {
                        Some(message) => {
                            &&& final(game)@ == g
                            &&& final(network)@ == n
                            &&& final(self)@ == (ControlsState {
                                error: Some(message),
                                ..old(self)@
                            })
                            &&& performed == (Performed::Ran {
                                succeeded: false,
                                structural: action.is_structural(),
                                resume: false,
                            })
                        },
                        None => {
                            &&& final(game)@ == action.applied(g)
                            &&& final(network)@ == (NetworkModel {
                                force: if n.is_host() {
                                    true
                                } else {
                                    n.force
                                },
                                ..n
                            })
                            &&& final(self)@ == if action is TogglePause {
                                old(self)@
                            } else {
                                ControlsState { error: None, ..old(self)@ }
                            }
                            &&& performed == (Performed::Ran {
                                succeeded: true,
                                structural: action.is_structural(),
                                resume: action is TogglePause && !action.applied(g).paused,
                            })
                        },
                    }
                }
            }),
    {
        if network.is_guest_or_joining() {
            return match network.command(action) {
                Ok((peer, message)) => {
                    self.error = None;
                    Performed::Request(peer, message)
                },
                Err(e) => {
                    self.error = Some(String::from_str(e));
                    Performed::Unsent
                },
            };
        }
        let structural = action.structural();
        let pause = match action {
            Action::TogglePause => true,
            _ => false,
        };
        let result = action.apply(game);
        let succeeded = result.is_ok();
        match result {
            Ok(()) => {
                if !pause {
                    self.error = None;
                }
            },
            Err(message) => {
                self.error = Some(String::from_str(message));
            },
        }
        if succeeded {
            network.force_publish();
        }
        Performed::Ran { succeeded, structural, resume: pause && succeeded && !game.paused }
    }

    /// The lobby id field's caption: the digits being typed, the invitation to type them, or
    /// the lobby to join.
    pub fn join_label(&self) -> (label: String)
        ensures
            label@ == if self@.join_entry {
                "ID: "@ + self@.join_code + "_"@
            } else if self@.join_code.len() == 0 {
                "JOIN BY ID"@
            } else {
                "JOIN "@ + self@.join_code
            },
    {
        if self.join_entry {
            let mut label = String::from_str("ID: ");
            label.append(self.join_code.as_str());
            label.append("_");
            label
        } else if self.join_code.unicode_len() == 0 {
            String::from_str("JOIN BY ID")
        } else {
            let mut label = String::from_str("JOIN ");
            label.append(self.join_code.as_str());
            label
        }
    }
}

/// The lobby line of the menu: the lobby and how many are in it, or that there is none.
pub fn lobby_label(network: &Network) -> (label: String)
    ensures
        label@ == match network@.lobby {
            None => "NO LOBBY"@,
            Some(id) => "LOBBY "@ + decimal(id as nat) + " · "@ + decimal(network@.members.len())
                + " PLAYER(S)"@,
        },
{
    match network.lobby_id() {
        None => String::from_str("NO LOBBY"),
        Some(id) => {
            let mut label = String::from_str("LOBBY ");
            append_decimal(&mut label, id);
            label.append(" · ");
            append_decimal(&mut label, network.members_len() as u64);
            label.append(" PLAYER(S)");
            label
        },
    }
}

/// The lobby badge of the factory screen: host or guest of which lobby, or solo.
pub fn lobby_badge(network: &Network) -> (label: String)
    ensures
        label@ == match network@.lobby {
            None => "SOLO FACTORY"@,
            Some(id) => if network@.is_host() {
                "HOST · "@ + decimal(id as nat) + "\nSAVING THIS FACTORY"@
            } else {
                "GUEST · "@ + decimal(id as nat) + "\nHOST SAVES THE FACTORY"@
            },
        },
{
    match network.lobby_id() {
        None => String::from_str("SOLO FACTORY"),
        Some(id) => {
            let host = network.is_host();
            let mut label = String::from_str(
                if host {
                    "HOST · "
                } else {
                    "GUEST · "
                },
            );
            append_decimal(&mut label, id);
            label.append(
                if host {
                    "\nSAVING THIS FACTORY"
                } else {
                    "\nHOST SAVES THE FACTORY"
                },
            );
            label
        },
    }
}

/// How many factory ticks are due `elapsed` nanoseconds after the last one: one per 200 ms,
/// at most eight at once.
pub fn ticks_due(elapsed: u64) -> (steps: u64)
    ensures
        steps == if elapsed / 200_000_000 <= 8 {
            elapsed / 200_000_000
        } else {
            8
        },
{
    let steps = elapsed / 200_000_000;
    if steps <= 8 {
        steps
    } else {
        8
    }
}

impl Controls {
    /// Whether the factory is shown this frame, so that it runs and is saved: on the factory
    /// screen, or whenever this machine hosts a lobby.
    pub fn on_stage(&self, network: &Network) -> (shown: bool)
        ensures
            shown == (self@.screen == Screen::Factory || network@.is_host()),
    {
        self.screen == Screen::Factory || network.is_host()
    }

    /// Whether the factory advances this frame: it is on stage and not paused, and on a guest
    /// the host's factory has arrived.
    pub fn advances(&self, network: &Network, paused: bool) -> (runs: bool)
        ensures
            runs == ((self@.screen == Screen::Factory || network@.is_host()) && !paused && (
            !network@.is_guest_or_joining() || network@.has_state())),
    {
        self.on_stage(network) && !paused && (!network.is_guest_or_joining() || network.has_state())
    }
}

/// The view stays on the floor and the zoom within its range: whatever control is activated
/// or key pressed, a view that started on the floor with a zoom in range keeps both.
pub proof fn lemma_view_stays_on_floor(c: ControlsState, name: Seq<char>, key: KeyModel, n: NetworkModel, hub: [usize; 2])
    requires
        c.view_x <= 21,
        c.view_y <= 14,
        14 <= c.zoom <= 42,
    ensures
        c.acted(name, n, hub).0.view_x <= 21,
        c.acted(name, n, hub).0.view_y <= 14,
        14 <= c.acted(name, n, hub).0.zoom <= 42,
        c.pressed(key).0.view_x <= 21,
        c.pressed(key).0.view_y <= 14,
        14 <= c.pressed(key).0.zoom <= 42,
{
}

} // verus!
