use bozz_torio::multiplayer::{Action, Message};
use bozz_torio::runtime::{
    direction_name, lobby_badge, lobby_label, ticks_due, Controls, Effect, Key, Performed, Screen,
    Tool,
};
use bozz_torio::sim::{Direction, Game, Item, Kind};
use bozz_torio::steam_net::Network;
use std::collections::BTreeSet;

const HUB: [usize; 2] = [18, 7];

fn offline() -> Network {
    Network::new(false, 0, "key".to_string(), None, 0).unwrap().0
}

fn guest() -> Network {
    let (mut net, _) = Network::new(true, 9, "key".to_string(), None, 0).unwrap();
    let request = net.join(42, 0).unwrap();
    assert!(net.begin_joined(request.generation));
    net.joined(42, false, 7, false, Some("key"), Some("7"), 0).unwrap();
    net
}

fn host() -> Network {
    let (mut net, _) = Network::new(true, 7, "key".to_string(), None, 0).unwrap();
    let generation = net.create(0).unwrap();
    assert!(net.begin_joined(generation));
    net.joined(42, true, 7, true, Some("key"), Some("7"), 0).unwrap();
    let mut change = bozz_torio::multiplayer::Change::default();
    let members: BTreeSet<u64> = [7, 9].into_iter().collect();
    net.check_membership(true, 7, members, &mut change).unwrap();
    net
}

#[test]
fn new_controls_open_on_the_hub() {
    let c = Controls::new(false, HUB, None);
    assert_eq!(c.screen, Screen::Menu);
    assert_eq!(c.tool, Tool::Build(Kind::Miner));
    assert_eq!(c.facing, Direction::East);
    assert_eq!(c.inspected, Some((18, 7)));
    assert_eq!((c.view_x, c.view_y), (0, 0));
    assert_eq!(c.zoom, 32);
    let playing = Controls::new(true, [30, 20], Some("Invalid save archived".to_string()));
    assert_eq!(playing.screen, Screen::Factory);
    assert_eq!((playing.view_x, playing.view_y), (12, 9));
    assert_eq!(playing.error.as_deref(), Some("Invalid save archived"));
}

#[test]
fn bar_buttons_pick_tools_and_buy() {
    let net = offline();
    let mut c = Controls::new(true, HUB, None);
    assert!(matches!(c.action("tool-2", &net, HUB), Effect::Nothing));
    assert_eq!(c.tool, Tool::Build(Kind::Assembler));
    c.action("carry-5", &net, HUB);
    assert_eq!(c.tool, Tool::Carry(Item::Circuit));
    c.action("use-4", &net, HUB);
    assert_eq!(c.tool, Tool::Build(Kind::Splitter));
    c.action("tool-9", &net, HUB);
    c.action("tool-x", &net, HUB);
    assert_eq!(c.tool, Tool::Build(Kind::Splitter));
    assert!(matches!(
        c.action("buy-3", &net, HUB),
        Effect::Perform(Action::Buy { kind: Kind::Belt })
    ));
    assert!(matches!(c.action("buy-5", &net, HUB), Effect::Nothing));
    assert!(matches!(c.action("pause", &net, HUB), Effect::Perform(Action::TogglePause)));
    c.action("inspect", &net, HUB);
    assert_eq!(c.tool, Tool::Inspect);
    c.action("orientation", &net, HUB);
    assert_eq!(c.facing, Direction::South);
    assert!(matches!(c.action("upgrade", &net, HUB), Effect::Nothing));
    assert!(matches!(c.action("no-such-button", &net, HUB), Effect::Nothing));
}

#[test]
fn inspected_tile_buttons_name_the_tile() {
    let net = offline();
    let mut c = Controls::new(true, HUB, None);
    c.inspected = Some((5, 3));
    assert!(matches!(
        c.action("rotate-selected", &net, HUB),
        Effect::Perform(Action::Rotate { x: 5, y: 3 })
    ));
    assert!(matches!(
        c.action("recipe", &net, HUB),
        Effect::Perform(Action::Recipe { x: 5, y: 3 })
    ));
    assert!(matches!(
        c.action("pick-up", &net, HUB),
        Effect::Perform(Action::TakeOutput { x: 5, y: 3 })
    ));
    assert!(matches!(
        c.action("recover", &net, HUB),
        Effect::Perform(Action::Remove { x: 5, y: 3 })
    ));
    c.inspected = None;
    assert!(matches!(c.action("recover", &net, HUB), Effect::Nothing));
}

#[test]
fn view_pans_zooms_and_jumps_within_the_floor() {
    let net = offline();
    let mut c = Controls::new(true, HUB, None);
    c.action("pan-right", &net, HUB);
    assert_eq!(c.view_x, 8);
    c.action("pan-right", &net, HUB);
    c.action("pan-right", &net, HUB);
    assert_eq!(c.view_x, 21);
    c.action("pan-left", &net, HUB);
    assert_eq!(c.view_x, 13);
    c.action("pan-down", &net, HUB);
    c.action("pan-down", &net, HUB);
    assert_eq!(c.view_y, 14);
    c.action("pan-up", &net, HUB);
    assert_eq!(c.view_y, 6);
    for _ in 0..10 {
        c.action("zoom-in", &net, HUB);
    }
    assert_eq!(c.zoom, 42);
    for _ in 0..20 {
        c.action("zoom-out", &net, HUB);
    }
    assert_eq!(c.zoom, 14);
    c.wheel(true);
    assert_eq!(c.zoom, 16);
    c.wheel(false);
    c.wheel(false);
    assert_eq!(c.zoom, 14);
    c.show_map = true;
    c.action("map-se", &net, HUB);
    assert_eq!((c.view_x, c.view_y), (21, 14));
    assert!(!c.show_map);
    c.action("map-nw", &net, HUB);
    assert_eq!((c.view_x, c.view_y), (21, 14));
    c.action("hub", &net, HUB);
    assert_eq!((c.view_x, c.view_y), (4, 0));
    c.focus_hub([2, 1]);
    assert_eq!(c.inspected, Some((2, 1)));
    assert_eq!((c.view_x, c.view_y), (0, 0));
}

#[test]
fn panels_and_screens_switch() {
    let net = offline();
    let mut c = Controls::new(true, HUB, None);
    c.action("map-button", &net, HUB);
    assert!(c.show_map);
    c.action("help-button", &net, HUB);
    assert!(c.help && !c.show_map);
    c.action("close-help", &net, HUB);
    assert!(!c.help);
    assert!(matches!(c.action("menu-button", &net, HUB), Effect::Persist));
    assert_eq!(c.screen, Screen::Menu);
    assert!(matches!(c.action("continue", &net, HUB), Effect::Resume));
    assert_eq!(c.screen, Screen::Factory);
    assert!(matches!(c.action("new", &net, HUB), Effect::NewScene));
    assert!(matches!(c.action("quit", &net, HUB), Effect::Exit));
    assert!(matches!(c.action("steam-friends", &net, HUB), Effect::SteamOverlay));
    assert!(matches!(c.action("create-lobby", &net, HUB), Effect::CreateLobby));
    assert!(matches!(c.action("invite-lobby", &net, HUB), Effect::InviteLobby));
}

#[test]
fn a_guest_waits_for_the_host_factory_and_keeps_its_lobby() {
    let net = guest();
    let mut c = Controls::new(false, HUB, None);
    assert!(matches!(c.action("continue", &net, HUB), Effect::Nothing));
    assert_eq!(c.error.as_deref(), Some("Waiting for the host's factory state"));
    assert_eq!(c.screen, Screen::Menu);
    assert!(matches!(c.action("new", &net, HUB), Effect::Nothing));
    assert_eq!(
        c.error.as_deref(),
        Some("Leave the lobby before loading a new editor scene")
    );
    assert!(matches!(
        c.action("leave-lobby", &net, HUB),
        Effect::LeaveLobby { persist: false, restore: true }
    ));
    let hosting = host();
    assert!(matches!(
        c.action("leave-lobby", &hosting, HUB),
        Effect::LeaveLobby { persist: true, restore: false }
    ));
}

#[test]
fn lobby_id_field_takes_up_to_twenty_digits() {
    let net = offline();
    let mut c = Controls::new(false, HUB, None);
    assert_eq!(c.join_label(), "JOIN BY ID");
    assert!(matches!(c.action("join-lobby", &net, HUB), Effect::Nothing));
    assert!(c.join_entry);
    c.key(&Key::Character("12a".to_string()));
    assert_eq!(c.join_code, "");
    c.key(&Key::Character("123".to_string()));
    assert_eq!(c.join_code, "123");
    assert_eq!(c.join_label(), "ID: 123_");
    for _ in 0..4 {
        c.key(&Key::Backspace);
    }
    assert_eq!(c.join_code, "");
    c.key(&Key::Character("2".to_string()));
    c.key(&Key::Character("9".repeat(30)));
    assert_eq!(c.join_code.len(), 20);
    // Twenty digits from 2 up do not fit a lobby id.
    assert!(matches!(c.key(&Key::Enter), Effect::Nothing));
    assert!(c.join_entry);
    c.key(&Key::Backspace);
    assert_eq!(c.join_code.len(), 19);
    assert!(matches!(c.key(&Key::Enter), Effect::JoinLobby(2_999_999_999_999_999_999)));
    assert!(!c.join_entry);
    assert!(matches!(c.key(&Key::Enter), Effect::Activate));
    c.join_code = "42".to_string();
    c.join_entry = true;
    assert!(matches!(c.key(&Key::Enter), Effect::JoinLobby(42)));
    assert!(!c.join_entry);
    assert_eq!(c.join_label(), "JOIN 42");
    assert!(matches!(c.action("join-lobby", &net, HUB), Effect::JoinLobby(42)));
    c.join_entry = true;
    c.key(&Key::Escape);
    assert!(!c.join_entry);
    c.action("leave-lobby", &net, HUB);
    assert_eq!(c.join_code, "");
}

#[test]
fn keys_drive_the_factory_screen() {
    let mut c = Controls::new(true, HUB, None);
    assert!(matches!(c.key(&Key::Tab), Effect::FocusNext));
    assert!(matches!(c.key(&Key::Enter), Effect::Activate));
    assert!(matches!(c.key(&Key::Space), Effect::Perform(Action::TogglePause)));
    c.key(&Key::Character("R".to_string()));
    assert_eq!(c.facing, Direction::South);
    c.key(&Key::Character("i".to_string()));
    assert_eq!(c.tool, Tool::Inspect);
    c.key(&Key::Character("3".to_string()));
    assert_eq!(c.tool, Tool::Build(Kind::Assembler));
    c.key(&Key::Character("6".to_string()));
    assert_eq!(c.tool, Tool::Build(Kind::Assembler));
    c.key(&Key::Character("d".to_string()));
    c.key(&Key::ArrowRight);
    assert_eq!(c.view_x, 16);
    c.key(&Key::Character("S".to_string()));
    assert_eq!(c.view_y, 8);
    c.key(&Key::F1);
    assert!(c.help);
    c.key(&Key::Escape);
    assert!(!c.help);
    c.show_map = true;
    c.key(&Key::Escape);
    assert!(!c.show_map);
    assert!(matches!(c.key(&Key::Escape), Effect::Persist));
    assert_eq!(c.screen, Screen::Menu);
    assert!(matches!(c.key(&Key::Space), Effect::Nothing));
    assert!(matches!(c.key(&Key::Escape), Effect::Nothing));
}

#[test]
fn commands_run_locally_or_go_to_the_host() {
    let mut net = offline();
    let mut game = Game::new();
    let mut c = Controls::new(true, HUB, Some("old problem".to_string()));
    match c.perform(Action::Buy { kind: Kind::Belt }, &mut net, &mut game) {
        Performed::Ran { succeeded, structural, resume } => {
            assert!(succeeded && !structural && !resume);
        }
        _ => panic!("expected the command to run"),
    }
    assert_eq!(c.error, None);
    assert_eq!(game.credits, 3);
    c.perform(Action::Buy { kind: Kind::Hub }, &mut net, &mut game);
    assert_eq!(c.error.as_deref(), Some("The hub cannot be purchased"));
    c.perform(Action::TogglePause, &mut net, &mut game);
    assert!(game.paused);
    assert_eq!(c.error.as_deref(), Some("The hub cannot be purchased"));
    match c.perform(Action::TogglePause, &mut net, &mut game) {
        Performed::Ran { resume, .. } => assert!(resume),
        _ => panic!("expected the command to run"),
    }

    let mut net = guest();
    let mut game = Game::new();
    match c.perform(Action::Buy { kind: Kind::Belt }, &mut net, &mut game) {
        Performed::Request(peer, Message::Command { sequence, .. }) => {
            assert_eq!(peer, 7);
            assert_eq!(sequence, 1);
        }
        _ => panic!("expected a request for the host"),
    }
    assert_eq!(game.credits, 4);
}

#[test]
fn lobby_captions_name_the_lobby_and_role() {
    let solo = offline();
    assert_eq!(lobby_label(&solo), "NO LOBBY");
    assert_eq!(lobby_badge(&solo), "SOLO FACTORY");
    let hosting = host();
    assert_eq!(lobby_label(&hosting), "LOBBY 42 · 2 PLAYER(S)");
    assert_eq!(lobby_badge(&hosting), "HOST · 42\nSAVING THIS FACTORY");
    assert_eq!(lobby_badge(&guest()), "GUEST · 42\nHOST SAVES THE FACTORY");
    assert_eq!(direction_name(Direction::West), "W");
}

#[test]
fn the_factory_runs_on_stage_and_catches_up_a_few_ticks_at_a_time() {
    assert_eq!(ticks_due(0), 0);
    assert_eq!(ticks_due(199_999_999), 0);
    assert_eq!(ticks_due(200_000_000), 1);
    assert_eq!(ticks_due(1_000_000_000), 5);
    assert_eq!(ticks_due(60_000_000_000), 8);
    let solo = offline();
    let menu = Controls::new(false, HUB, None);
    assert!(!menu.on_stage(&solo));
    assert!(!menu.advances(&solo, false));
    let playing = Controls::new(true, HUB, None);
    assert!(playing.advances(&solo, false));
    assert!(!playing.advances(&solo, true));
    // A host keeps its factory running behind the menu; a guest waits for the host's factory.
    assert!(menu.advances(&host(), false));
    assert!(!playing.advances(&guest(), false));
}

#[test]
fn a_replaced_factory_opens_on_its_hub() {
    let mut c = Controls::new(false, HUB, None);
    c.view_x = 21;
    c.reopen([10, 12], true);
    assert_eq!(c.screen, Screen::Factory);
    assert_eq!(c.inspected, Some((10, 12)));
    assert_eq!((c.view_x, c.view_y), (0, 4));
    c.reopen(HUB, false);
    assert_eq!(c.screen, Screen::Menu);
}
