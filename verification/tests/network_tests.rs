use bozz_torio::multiplayer::{Action, Change, Message};
use bozz_torio::sim::{Game, Kind};
use bozz_torio::snapshot::state_parts;
use bozz_torio::steam_net::{Membership, Network, Reception, TIMEOUT_NANOS};
use std::collections::BTreeSet;

const HOST: u64 = 7;
const GUEST: u64 = 9;
const LOBBY: u64 = 42;
const KEY: &str = "bozz-torio-v1-test";
const SECOND: u64 = 1_000_000_000;

fn no_change() -> Change {
    Change::default()
}

fn ids(list: &[u64]) -> BTreeSet<u64> {
    list.iter().copied().collect()
}

/// A host that created `LOBBY`, with `GUEST` as the second member.
fn hosting() -> Network {
    let (mut net, request) = Network::new(true, HOST, KEY.to_string(), None, 0).unwrap();
    assert!(request.is_none());
    let generation = net.create(0).unwrap();
    assert!(net.begin_joined(generation));
    net.joined(LOBBY, true, HOST, true, Some(KEY), Some("7"), 0).unwrap();
    let mut change = no_change();
    match net.check_membership(true, HOST, ids(&[HOST, GUEST]), &mut change).unwrap() {
        Membership::Kept(peers) => assert_eq!(peers, vec![GUEST]),
        Membership::Lost(_) => panic!("host lost its lobby"),
    }
    net.state_sent(GUEST);
    net
}

/// A guest that joined `LOBBY`, hosted by `HOST`.
fn guest() -> Network {
    let (mut net, _) = Network::new(true, GUEST, KEY.to_string(), None, 0).unwrap();
    let request = net.join(LOBBY, 0).unwrap();
    assert!(net.begin_joined(request.generation));
    net.joined(LOBBY, false, HOST, false, Some(KEY), Some("7"), 0).unwrap();
    let mut change = no_change();
    match net.check_membership(true, HOST, ids(&[HOST, GUEST]), &mut change).unwrap() {
        Membership::Kept(peers) => assert!(peers.is_empty()),
        Membership::Lost(_) => panic!("guest lost its lobby"),
    }
    net
}

#[test]
fn offline_session_is_solo_and_refuses_lobbies() {
    let (net, request) = Network::new(false, 0, KEY.to_string(), None, 0).unwrap();
    assert!(request.is_none());
    assert_eq!(net.status(), "Steam offline. Solo factory is available.");
    assert!(!net.connected());
    assert!(net.has_state());
    assert!(!net.can_create_or_join());
    assert!(!net.is_host());
    assert!(!net.is_guest_or_joining());
    assert_eq!(net.lobby_id(), None);
    assert_eq!(
        Network::new(false, 0, KEY.to_string(), Some(LOBBY), 0).err(),
        Some("Steam is required to join a lobby")
    );
    let mut offline = net;
    assert_eq!(offline.create(0), Err("Steam is offline"));
    assert_eq!(offline.invite(true), Err("create or join a lobby first"));
}

#[test]
fn starting_with_a_lobby_joins_it() {
    let (net, request) = Network::new(true, GUEST, KEY.to_string(), Some(LOBBY), 5).unwrap();
    let request = request.unwrap();
    assert_eq!(request.lobby, LOBBY);
    assert_eq!(request.generation, 1);
    assert!(request.departure.is_none());
    assert_eq!(net.status(), "Joining lobby 42…");
    assert!(net.busy());
    assert!(net.is_guest_or_joining());
    assert!(!net.has_state());
    assert_eq!(
        Network::new(true, GUEST, KEY.to_string(), Some(0), 0).err(),
        Some("invalid lobby ID")
    );
}

#[test]
fn created_lobby_makes_this_machine_the_host() {
    let (mut net, _) = Network::new(true, HOST, KEY.to_string(), None, 0).unwrap();
    assert_eq!(net.status(), "Create a lobby or join a friend's lobby.");
    assert!(net.can_create_or_join());
    let generation = net.create(3).unwrap();
    assert_eq!(generation, 1);
    assert_eq!(net.status(), "Creating friends-only lobby…");
    assert_eq!(net.create(4), Err("leave the current lobby first"));
    assert!(!net.begin_joined(generation + 1));
    assert!(net.busy());
    assert!(net.begin_joined(generation));
    let connect = net.joined(LOBBY, true, HOST, true, Some(KEY), Some("7"), 9).unwrap();
    assert_eq!(connect, "+connect_lobby 42");
    assert!(net.is_host());
    assert!(!net.is_guest_or_joining());
    assert_eq!(net.lobby_id(), Some(LOBBY));
    assert_eq!(
        net.status(),
        "Lobby 42 created. Invite friends; this machine hosts and saves."
    );
    assert_eq!(net.invite(true), Ok(LOBBY));
    assert_eq!(
        net.invite(false),
        Err("Steam overlay unavailable. Share the lobby ID or ask a friend to join with --join-lobby ID.")
    );
}

#[test]
fn lobby_answers_that_do_not_check_out_are_refused() {
    let (mut net, _) = Network::new(true, HOST, KEY.to_string(), None, 0).unwrap();
    let generation = net.create(0).unwrap();
    assert!(net.begin_joined(generation));
    assert_eq!(
        net.joined(LOBBY, true, GUEST, true, Some(KEY), Some("9"), 0),
        Err("unexpected lobby owner")
    );
    assert_eq!(
        net.joined(LOBBY, true, HOST, false, Some(KEY), Some("7"), 0),
        Err("could not publish factory lobby metadata")
    );
    assert_eq!(
        net.joined(LOBBY, false, HOST, false, Some("other"), Some("7"), 0),
        Err("incompatible Bozz-torio scene, protocol, or host")
    );
    assert_eq!(
        net.joined(LOBBY, false, HOST, false, Some(KEY), Some("8"), 0),
        Err("incompatible Bozz-torio scene, protocol, or host")
    );
    assert_eq!(net.lobby_id(), None);
    let mut change = no_change();
    net.join_failed("Lobby unavailable or full", false, &mut change);
    assert_eq!(net.status(), "Lobby unavailable or full");
    assert!(change.join_failed);
}

#[test]
fn guest_commands_are_numbered_for_the_host() {
    let mut net = guest();
    assert!(net.is_guest_or_joining());
    assert!(!net.is_host());
    assert_eq!(net.status(), "Joined lobby 42. Waiting for the host's factory…");
    let (peer, message) = net.command(Action::TogglePause).unwrap();
    assert_eq!(peer, HOST);
    assert!(matches!(message, Message::Command { sequence: 1, action: Action::TogglePause }));
    let (_, message) = net.command(Action::Buy { kind: Kind::Belt }).unwrap();
    assert!(matches!(message, Message::Command { sequence: 2, .. }));
    net.command_sent();
    assert_eq!(net.status(), "Request sent to host.");

    let mut host = hosting();
    assert_eq!(host.command(Action::TogglePause).err(), Some("wait for the host's lobby"));
}

#[test]
fn host_applies_each_command_once() {
    let mut net = hosting();
    let mut game = Game::new();
    let mut change = no_change();
    let buy = Message::Command { sequence: 1, action: Action::Buy { kind: Kind::Belt } };
    assert!(matches!(
        net.receive(Some(GUEST), buy, &mut game, &mut change, 0),
        Reception::Done
    ));
    assert_eq!(game.credits, 3);
    assert_eq!(game.buildings[Kind::Belt.index()], 25);
    assert!(change.state);
    assert!(!change.structural);

    // The same command again, or an older one, is not carried out.
    let mut again = no_change();
    let buy = Message::Command { sequence: 1, action: Action::Buy { kind: Kind::Belt } };
    assert!(matches!(
        net.receive(Some(GUEST), buy, &mut game, &mut again, 0),
        Reception::Done
    ));
    assert_eq!(game.credits, 3);
    assert!(!again.state);

    let place = Message::Command {
        sequence: 2,
        action: Action::Place { x: 4, y: 7, kind: Kind::Miner, direction: bozz_torio::sim::Direction::East },
    };
    net.receive(Some(GUEST), place, &mut game, &mut again, 0);
    assert!(again.state);
    assert!(again.structural);
    assert!(game.tiles[7 * 22 + 4].building.is_some());
}

#[test]
fn host_refuses_bad_commands_with_a_reply() {
    let mut net = hosting();
    let mut game = Game::new();
    let mut change = no_change();
    let buy_hub = Message::Command { sequence: 5, action: Action::Buy { kind: Kind::Hub } };
    match net.receive(Some(GUEST), buy_hub, &mut game, &mut change, 0) {
        Reception::Reply(peer, Message::Rejected { sequence, reason }) => {
            assert_eq!(peer, GUEST);
            assert_eq!(sequence, 5);
            assert_eq!(reason, "The hub cannot be purchased");
        }
        _ => panic!("expected a refusal"),
    }
    assert!(!change.state);
    // The refused command still counts as taken.
    let again = Message::Command { sequence: 5, action: Action::Buy { kind: Kind::Hub } };
    assert!(matches!(
        net.receive(Some(GUEST), again, &mut game, &mut change, 0),
        Reception::Done
    ));
}

#[test]
fn strangers_and_unnamed_senders_are_not_heard() {
    let mut net = hosting();
    let mut game = Game::new();
    let mut change = no_change();
    let buy = || Message::Command { sequence: 1, action: Action::Buy { kind: Kind::Belt } };
    net.receive(Some(1234), buy(), &mut game, &mut change, 0);
    net.receive(None, buy(), &mut game, &mut change, 0);
    net.receive(Some(HOST), buy(), &mut game, &mut change, 0);
    assert_eq!(game.credits, 4);
    assert!(!change.state);

    // A guest only listens to its host, and never carries out commands.
    let mut guest = guest();
    let mut game = Game::new();
    guest.receive(Some(HOST), buy(), &mut game, &mut change, 0);
    assert_eq!(game.credits, 4);
    let rejected = Message::Rejected { sequence: 1, reason: "No item in inventory".to_string() };
    guest.receive(Some(HOST), rejected, &mut game, &mut change, 0);
    assert_eq!(guest.status(), "No item in inventory");
}

#[test]
fn host_goodbye_closes_the_guest_session() {
    let mut net = guest();
    let mut game = Game::new();
    let mut change = no_change();
    match net.receive(Some(HOST), Message::Goodbye, &mut game, &mut change, 0) {
        Reception::Closed(Some(departure)) => {
            assert_eq!(departure.lobby, LOBBY);
            assert_eq!(departure.peers, vec![HOST]);
        }
        _ => panic!("expected the lobby to close"),
    }
    assert!(change.guest_lost);
    assert_eq!(net.status(), "Host closed the lobby. Returned to solo menu.");
    assert_eq!(net.lobby_id(), None);
    assert!(!net.is_guest_or_joining());
    assert!(net.has_state());
    assert!(net.can_create_or_join());
}

#[test]
fn guest_goodbye_only_forgets_what_was_sent() {
    let mut net = hosting();
    let mut game = Game::new();
    let mut change = no_change();
    assert!(matches!(
        net.receive(Some(GUEST), Message::Goodbye, &mut game, &mut change, 0),
        Reception::Done
    ));
    assert!(net.is_host());
    match net.check_membership(true, HOST, ids(&[HOST, GUEST]), &mut change).unwrap() {
        Membership::Kept(peers) => assert_eq!(peers, vec![GUEST]),
        Membership::Lost(_) => panic!("host lost its lobby"),
    }
}

#[test]
fn losing_the_host_or_steam_leaves_the_lobby() {
    let mut net = guest();
    let mut change = no_change();
    match net.check_membership(true, HOST, ids(&[GUEST]), &mut change).unwrap() {
        Membership::Lost(Some(departure)) => {
            assert_eq!(departure.lobby, LOBBY);
            assert_eq!(departure.peers, vec![HOST]);
        }
        _ => panic!("expected to lose the lobby"),
    }
    assert!(change.guest_lost);
    assert_eq!(
        net.status(),
        "Host left or Steam disconnected. Returned to solo menu."
    );

    let mut host = hosting();
    let mut change = no_change();
    assert!(matches!(
        host.check_membership(false, HOST, ids(&[HOST, GUEST]), &mut change).unwrap(),
        Membership::Lost(_)
    ));
    assert!(!change.guest_lost);
    assert_eq!(host.lobby_id(), None);
}

#[test]
fn membership_sets_who_may_connect() {
    let host = hosting();
    assert_eq!(*host.allowed(), ids(&[HOST, GUEST]));
    assert_eq!(host.members_len(), 2);
    let guest = guest();
    assert_eq!(*guest.allowed(), ids(&[HOST]));
}

#[test]
fn lobby_requests_time_out() {
    let (mut net, _) = Network::new(true, GUEST, KEY.to_string(), None, 0).unwrap();
    net.join(LOBBY, SECOND).unwrap();
    let mut change = no_change();
    assert!(net.check_pending_timeout(SECOND + TIMEOUT_NANOS, &mut change).is_none());
    assert!(net.busy());
    assert!(!change.join_failed);
    net.check_pending_timeout(SECOND + TIMEOUT_NANOS + 1, &mut change);
    assert!(!net.busy());
    assert!(change.join_failed);
    assert_eq!(net.status(), "Steam lobby request timed out.");
}

#[test]
fn silent_host_times_the_guest_out() {
    let mut net = guest();
    let mut change = no_change();
    assert!(net.finish_update(TIMEOUT_NANOS, &mut change).is_none());
    assert_eq!(net.lobby_id(), Some(LOBBY));
    let departure = net.finish_update(TIMEOUT_NANOS + 1, &mut change).unwrap();
    assert_eq!(departure.peers, vec![HOST]);
    assert!(change.guest_lost);
    assert_eq!(net.status(), "Host connection timed out. Returned to solo menu.");

    let mut host = hosting();
    let mut change = no_change();
    assert!(host.finish_update(100 * TIMEOUT_NANOS, &mut change).is_none());
    assert!(host.is_host());
}

#[test]
fn host_shares_its_factory_on_schedule() {
    let mut net = hosting();
    // Nothing ticked and nothing forced: wait for the long gap.
    assert!(net.publish(0, SECOND).is_none());
    let first = net.publish(0, 3 * SECOND).unwrap();
    assert_eq!(first.revision, 2);
    assert_eq!(first.peers, vec![GUEST]);
    // Ticking factory: no more often than the short gap.
    assert!(net.publish(1, 3 * SECOND + 100_000_000).is_none());
    let second = net.publish(1, 3 * SECOND + 400_000_000).unwrap();
    assert_eq!(second.revision, 3);
    // Forced: at once.
    net.force_publish();
    assert_eq!(net.publish(1, 3 * SECOND + 400_000_000).unwrap().revision, 4);
    net.publish_failed("peer unreachable");
    assert_eq!(net.status(), "Could not send factory state: peer unreachable");

    // A guest never publishes.
    let mut guest = guest();
    guest.force_publish();
    assert!(guest.publish(5, 10 * SECOND).is_none());
}

#[test]
fn guest_shows_the_host_snapshot_once_complete() {
    let mut net = guest();
    assert!(!net.has_state());
    let mut seed: u64 = 5;
    let json: Vec<u8> = (0..30_000)
        .map(|_| {
            seed = seed.wrapping_mul(6364136223846793005).wrapping_add(1442695040888963407);
            b'a' + ((seed >> 33) % 26) as u8
        })
        .collect();
    let parts = state_parts(3, &json).unwrap();
    assert!(parts.len() > 1);
    let mut game = Game::new();
    let mut change = no_change();
    let mut published = None;
    for part in parts.iter().rev() {
        let message = Message::StatePart {
            revision: part.revision,
            index: part.index,
            count: part.count,
            data: part.data.clone(),
        };
        match net.receive(Some(HOST), message, &mut game, &mut change, 5) {
            Reception::Snapshot(revision, bytes) => {
                assert!(published.is_none());
                published = Some((revision, bytes));
            }
            Reception::Done => {}
            _ => panic!("unexpected reception"),
        }
    }
    let (revision, bytes) = published.unwrap();
    assert_eq!(revision, 3);
    assert_eq!(bytes, json);
    let mut next = Game::new();
    next.place(4, 7, Kind::Miner, bozz_torio::sim::Direction::East).unwrap();
    net.adopt_snapshot(revision, next, &mut game, &mut change, 5);
    assert!(change.state);
    assert!(change.structural);
    assert!(game.tiles[7 * 22 + 4].building.is_some());
    assert!(net.has_state());
    assert_eq!(net.status(), "Shared factory synced · host 7");
}

#[test]
fn invalid_snapshot_parts_are_reported() {
    let mut net = guest();
    let mut game = Game::new();
    let mut change = no_change();
    let bad = Message::StatePart { revision: 2, index: 3, count: 2, data: String::new() };
    net.receive(Some(HOST), bad, &mut game, &mut change, 0);
    assert_eq!(net.status(), "Rejected invalid host snapshot: invalid snapshot part");
    net.reject_snapshot("expected value at line 1 column 1");
    assert_eq!(
        net.status(),
        "Rejected invalid host snapshot: expected value at line 1 column 1"
    );
}

#[test]
fn leaving_says_goodbye_and_returns_to_solo() {
    let mut net = hosting();
    let departure = net.leave().unwrap();
    assert_eq!(departure.lobby, LOBBY);
    assert_eq!(departure.peers, vec![GUEST]);
    assert_eq!(net.status(), "Lobby closed. Solo factory is available.");
    assert!(!net.is_host());
    assert!(net.allowed().is_empty());
    assert_eq!(net.members_len(), 0);
    assert!(net.leave().is_none());

    // An invitation is taken only while solo and idle.
    let request = net.on_invite(LOBBY, 0).unwrap();
    assert_eq!(request.lobby, LOBBY);
    assert!(net.on_invite(LOBBY + 1, 0).is_none());
    assert_eq!(net.status(), "Joining lobby 42…");
}
