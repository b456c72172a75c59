//! The Steam lobby session: who hosts, who may talk, which commands and snapshots are taken,
//! and when the host shares its factory. Steam itself is driven by the caller, which hands
//! each answer back and carries out the sends and lobby calls that the session asks for.
use vstd::prelude::*;
use std::collections::{BTreeMap, BTreeSet};
use vstd::std_specs::cmp::OrdSpec;
use crate::multiplayer::{Action, Change, Message, MessageModel};
use crate::sim::{same_layout, Game};
use crate::snapshot::{
    accept_state_part, expire_assembly, pending, receive_part, Assembly, AssemblyModel,
};
use crate::text::{append_decimal, decimal, digit};
use vstd::utf8::encode_utf8;
use crate::text_scan::{
    all_digits, chars_of, digits_value, is_space, next_word, parse_u64, parsed_u64, same_text,
    word_end, words, words_from,
};

verus! {

/// The lobby a Steam `+connect_lobby` launch option names: exactly the word
/// `+connect_lobby` followed by one nonzero number, and nothing more.
pub open spec fn lobby_invitation(connect: Seq<char>) -> Option<u64> {
    let w = words(connect);
    if w.len() == 2 && w[0] == "+connect_lobby"@ {
        match parsed_u64(w[1]) {
            Some(id) => if id != 0 {
                Some(id)
            } else {
                None
            },
            None => None,
        }
    } else {
        None
    }
}

proof fn lemma_digit(x: nat)
    requires
        x < 10,
    ensures
        digit(x) as nat == '0' as nat + x,
        '0' <= digit(x) <= '9',
{
}

proof fn lemma_decimal_digits(n: nat)
    ensures
        decimal(n).len() > 0,
        all_digits(decimal(n)),
        digits_value(decimal(n)) == n,
    decreases n,
{
    lemma_digit(n % 10);
    if n < 10 {
        lemma_digit(n);
        let d = decimal(n);
        assert(d.drop_last() =~= Seq::<char>::empty());
        assert(digits_value(d.drop_last()) == 0);
        assert(d.last() == digit(n));
        assert(digits_value(d) == digits_value(d.drop_last()) * 10 + (d.last() as nat - '0' as nat) as nat);
    } else {
        lemma_decimal_digits(n / 10);
        let d = decimal(n);
        assert(d.drop_last() =~= decimal(n / 10));
        assert(d.last() == digit(n % 10));
        assert(digits_value(d) == digits_value(d.drop_last()) * 10 + (d.last() as nat - '0' as nat) as nat);
        assert(n == (n / 10) * 10 + n % 10);
        assert forall|k: int| 0 <= k < d.len() implies '0' <= #[trigger] d[k] <= '9' by {
            if k < d.len() - 1 {
                assert(d[k] == decimal(n / 10)[k]);
            }
        }
    }
}

proof fn lemma_word_run(s: Seq<char>, i: int, j: int)
    requires
        0 <= i <= j <= s.len(),
        forall|k: int| i <= k < j ==> !is_space(#[trigger] s[k]),
        j == s.len() || is_space(s[j]),
    ensures
        word_end(s, i) == j,
    decreases j - i,
{
    if i < j {
        lemma_word_run(s, i + 1, j);
    }
}

/// The launch option a lobby's rich presence announces, `+connect_lobby` and the lobby id
/// in decimal, reads back as that lobby whenever the id is not zero.
pub proof fn lemma_invitation_round_trip(id: u64)
    requires
        id != 0,
    ensures
        lobby_invitation("+connect_lobby "@ + decimal(id as nat)) == Some(id),
{
    reveal_strlit("+connect_lobby ");
    reveal_strlit("+connect_lobby");
    let d = decimal(id as nat);
    lemma_decimal_digits(id as nat);
    let s = "+connect_lobby "@ + d;
    let p = "+connect_lobby"@;
    assert(p.len() == 14);
    assert forall|k: int| 0 <= k < 14 implies !is_space(#[trigger] s[k]) by {
        assert(s[k] == p[k]);
    }
    assert(is_space(s[14]));
    assert forall|k: int| 15 <= k < s.len() implies !is_space(#[trigger] s[k]) by {
        assert(s[k] == d[k - 15]);
        assert('0' <= d[k - 15] <= '9');
    }
    lemma_word_run(s, 0, 14);
    lemma_word_run(s, 15, s.len() as int);
    assert(words_from(s, 14) == words_from(s, 15));
    assert(words_from(s, s.len() as int) == Seq::<Seq<char>>::empty());
    assert(s.subrange(0, 14) =~= p);
    assert(s.subrange(15, s.len() as int) =~= d);
    assert(words(s) =~= seq![p, d]);
    assert(d[0] != '+') by {
        assert('0' <= d[0] <= '9');
    }
}

fn is_connect_word(s: &Vec<char>, a: usize, b: usize) -> (r: bool)
    requires
        a <= b <= s@.len(),
    ensures
        r == (s@.subrange(a as int, b as int) == "+connect_lobby"@),
{
    let expected = "+connect_lobby";
    let n = expected.unicode_len();
    if b - a != n {
        assert(s@.subrange(a as int, b as int).len() != "+connect_lobby"@.len());
        return false;
    }
    let mut k: usize = 0;
    while k < n
        invariant
            n == expected@.len(),
            expected@ == "+connect_lobby"@,
            b - a == n,
            a <= b <= s@.len(),
            k <= n,
            forall|j: int| 0 <= j < k ==> s@[a + j] == expected@[j],
        decreases n - k,
    {
        if s[a + k] != expected.get_char(k) {
            assert(s@.subrange(a as int, b as int)[k as int] == s@[a + k]);
            assert(s@.subrange(a as int, b as int)[k as int] != expected@[k as int]);
            return false;
        }
        k += 1;
    }
    assert(s@.subrange(a as int, b as int) =~= expected@);
    true
}

pub fn parse_lobby_connect(connect: &str) -> (lobby: Option<u64>)
    ensures
        lobby == lobby_invitation(connect@),
{
    let s = chars_of(connect);
    let (a, b) = match next_word(&s, 0) {
        Some(w) => w,
        None => return None,
    };
    if !is_connect_word(&s, a, b) {
        return None;
    }
    let (c, d) = match next_word(&s, b) {
        Some(w) => w,
        None => return None,
    };
    let id = match parse_u64(&s, c, d) {
        Some(id) => id,
        None => return None,
    };
    if id != 0 && next_word(&s, d).is_none() {
        Some(id)
    } else {
        None
    }
}


/// How long a lobby request, a partial snapshot or a silent host may take, in nanoseconds.
pub const TIMEOUT_NANOS: u64 = 15_000_000_000;

/// The host shares its factory at least this often while anything may have changed.
pub const PUBLISH_IDLE_NANOS: u64 = 3_000_000_000;

/// The host shares a ticking factory no more often than this.
pub const PUBLISH_GAP_NANOS: u64 = 400_000_000;

/// Time from `start` to `now` on a monotonic clock; a reading before the start counts as none.
pub open spec fn elapsed(start: u64, now: u64) -> int {
    if now >= start {
        now - start
    } else {
        0
    }
}

/// `s` lists the ids in `ids`, each once, in increasing order.
pub open spec fn lists(s: Seq<u64>, ids: Set<u64>) -> bool {
    &&& s.to_set() == ids
    &&& forall|i: int, j: int| 0 <= i < j < s.len() ==> s[i] < s[j]
}

/// The lobby session as the rules see it.
pub struct NetworkModel {
    pub connected: bool,
    pub local: u64,
    pub game_key: Seq<char>,
    pub lobby: Option<u64>,
    pub owner: Option<u64>,
    pub members: Set<u64>,
    pub allowed: Set<u64>,
    pub sent_to: Set<u64>,
    pub last_command: Map<u64, u64>,
    pub generation: u64,
    pub pending: bool,
    pub pending_since: Option<u64>,
    pub pending_guest: bool,
    pub status: Seq<char>,
    pub revision: u64,
    pub applied_revision: u64,
    pub assembly: Option<AssemblyModel>,
    pub sequence: u64,
    pub last_sent: u64,
    pub last_sent_tick: u64,
    pub last_received: u64,
    pub force: bool,
}

/// Leaving a lobby: the lobby to leave and the other members to say goodbye to.
pub struct Departure {
    pub lobby: u64,
    pub peers: Vec<u64>,
}

/// A lobby join to start with Steam, tagged with the request's generation, and the lobby
/// left on the way, if any.
pub struct JoinRequest {
    pub lobby: u64,
    pub generation: u64,
    pub departure: Option<Departure>,
}

/// What a received message asks of the caller.
pub enum Reception {
    /// Nothing.
    Done,
    /// Send `Message` to the peer: the host's refusal of a guest's command.
    Reply(u64, Message),
    /// The host closed the lobby and the session left it: stop reading messages; the
    /// departure is for Steam.
    Closed(Option<Departure>),
    /// The last part of the host's snapshot of `revision` arrived, with this JSON: parse it,
    /// then `adopt_snapshot` or `reject_snapshot`.
    Snapshot(u64, Vec<u8>),
}

/// A round of sharing the host's factory: the snapshot's revision and the members to send it to.
pub struct Publication {
    pub revision: u64,
    pub peers: Vec<u64>,
}

/// What checking the lobby's membership found.
pub enum Membership {
    /// The session left the lobby; the departure is for Steam.
    Lost(Option<Departure>),
    /// Still in the lobby; a host is to send its factory to these members.
    Kept(Vec<u64>),
}

impl NetworkModel {
    /// The session's standing invariant.
    pub open spec fn wf(self) -> bool {
        &&& (self.lobby is Some <==> self.owner is Some)
        &&& self.lobby is Some ==> self.connected
        &&& self.pending ==> self.connected && self.lobby is None
        &&& self.pending_guest ==> self.pending
        &&& (self.pending <==> self.pending_since is Some)
    }

    /// This machine hosts the lobby it is in.
    pub open spec fn is_host(self) -> bool {
        self.lobby is Some && self.owner == Some(self.local)
    }

    /// This machine is joining a lobby, or is in one that another machine hosts.
    pub open spec fn is_guest_or_joining(self) -> bool {
        self.pending_guest || (self.lobby is Some && self.owner != Some(self.local))
    }

    /// The factory on screen is one to play: local, or a snapshot the host sent.
    pub open spec fn has_state(self) -> bool {
        !self.is_guest_or_joining() || self.applied_revision > 0
    }

    pub open spec fn can_create_or_join(self) -> bool {
        self.connected && !self.pending && self.lobby is None
    }

    /// No counter that an operation steps would overflow.
    pub open spec fn headroom(self) -> bool {
        &&& self.generation < u64::MAX
        &&& self.sequence < u64::MAX
        &&& self.revision < u64::MAX
    }

    /// The session after leaving: solo, with every lobby record cleared and outstanding
    /// lobby requests made stale.
    pub open spec fn closed(self) -> NetworkModel {
        NetworkModel {
            generation: (self.generation + 1) as u64,
            pending: false,
            pending_since: None,
            pending_guest: false,
            lobby: None,
            owner: None,
            members: Set::empty(),
            sent_to: Set::empty(),
            last_command: Map::empty(),
            allowed: Set::empty(),
            assembly: None,
            applied_revision: 0,
            status: "Lobby closed. Solo factory is available."@,
            ..self
        }
    }

    /// `d` is what leaving asks of Steam: when connected and in a lobby, to leave it and to say
    /// goodbye to every other member; otherwise nothing.
    pub open spec fn departs(self, d: Option<Departure>) -> bool {
        if self.connected && self.lobby is Some {
            d matches Some(dep) && dep.lobby == self.lobby->0 && lists(
                dep.peers@,
                self.members.remove(self.local),
            )
        } else {
            d is None
        }
    }

    /// The session while a join of lobby `id` is under way.
    pub open spec fn joining(self, id: u64, now: u64) -> NetworkModel {
        NetworkModel {
            pending: true,
            pending_since: Some(now),
            pending_guest: true,
            status: "Joining lobby "@ + decimal(id as nat) + "…"@,
            ..self.closed()
        }
    }

    /// Steam's view of the lobby no longer holds this session: Steam logged off, the owner
    /// changed, or the host or this machine is no longer a member.
    pub open spec fn membership_lost(self, logged_on: bool, lobby_owner: u64, members: Set<u64>) -> bool {
        let owner = self.owner->0;
        !logged_on || lobby_owner != owner || !members.contains(owner) || !members.contains(
            self.local,
        )
    }

    /// The session with the lobby's current `members`: a host lets every member talk to it,
    /// a guest only the host; records of members who left are dropped.
    pub open spec fn with_members(self, members: Set<u64>) -> NetworkModel {
        NetworkModel {
            allowed: if self.is_host() {
                members
            } else {
                set![self.owner->0]
            },
            members,
            sent_to: self.sent_to.intersect(members),
            last_command: self.last_command.restrict(members),
            ..self
        }
    }

    /// Messages from `sender` are read: another member, and on a guest only the host.
    pub open spec fn hears(self, sender: u64) -> bool {
        &&& sender != self.local
        &&& self.members.contains(sender)
        &&& (self.is_host() || Some(sender) == self.owner)
    }

    /// The highest command number taken from `sender`, 0 before the first.
    pub open spec fn last_from(self, sender: u64) -> u64 {
        if self.last_command.contains_key(sender) {
            self.last_command[sender]
        } else {
            0
        }
    }

    /// The host carries out `message` from `sender`: a command it has not taken yet.
    pub open spec fn applies(self, sender: Option<u64>, message: MessageModel) -> bool {
        &&& sender matches Some(s) && self.hears(s)
        &&& self.is_host()
        &&& message matches MessageModel::Command { sequence, .. } && sequence > self.last_from(
            sender->0,
        )
    }

    /// The session after dropping a partial snapshot older than the timeout.
    pub open spec fn expired_parts(self, now: u64) -> NetworkModel {
        if self.assembly matches Some(part) && elapsed(part.started, now) > TIMEOUT_NANOS {
            NetworkModel { assembly: None, ..self }
        } else {
            self
        }
    }

    /// The host shares its factory now: it is forced to, or enough time has passed since the
    /// last share and the factory has ticked (at least the short gap), or the long one passed.
    pub open spec fn publishes(self, ticks: u64, now: u64) -> bool {
        let e = elapsed(self.last_sent, now);
        &&& self.is_host()
        &&& self.members.len() >= 2
        &&& (self.force || e >= PUBLISH_IDLE_NANOS || (ticks != self.last_sent_tick && e
            >= PUBLISH_GAP_NANOS))
    }

    /// The session as it starts, before any lobby.
    pub open spec fn fresh(connected: bool, local: u64, game_key: Seq<char>, now: u64) -> NetworkModel {
        NetworkModel {
            connected,
            local,
            game_key,
            lobby: None,
            owner: None,
            members: Set::empty(),
            allowed: Set::empty(),
            sent_to: Set::empty(),
            last_command: Map::empty(),
            generation: 0,
            pending: false,
            pending_since: None,
            pending_guest: false,
            status: "Create a lobby or join a friend's lobby."@,
            revision: 1,
            applied_revision: 0,
            assembly: None,
            sequence: 0,
            last_sent: now,
            last_sent_tick: 0,
            last_received: now,
            force: false,
        }
    }
}

/// Steam ids are ordered as integers are.
proof fn lemma_ids_ordered()
    ensures
        vstd::laws_cmp::obeys_cmp::<u64>(),
{
}

proof fn lemma_increasing_pair<K: Ord>(s: Seq<K>, i: int, j: int)
    requires
        vstd::laws_cmp::obeys_cmp::<K>(),
        vstd::std_specs::btree::increasing_seq(s),
        0 <= i < j < s.len(),
    ensures
        s[i].cmp_spec(&s[j]) is Less,
{
    broadcast use vstd::std_specs::btree::axiom_increasing_seq_meaning;
}

proof fn lemma_increasing_below(s: Seq<&u64>, i: int, j: int)
    requires
        vstd::std_specs::btree::increasing_seq(s),
        0 <= i < j < s.len(),
    ensures
        *s[i] < *s[j],
{
    assert(vstd::laws_cmp::obeys_cmp::<u64>());
    assert(vstd::laws_cmp::obeys_cmp::<&u64>());
    lemma_increasing_pair(s, i, j);
}

/// The members other than `local` and outside `skip`, in increasing order.
fn peers_of(members: &BTreeSet<u64>, local: u64, skip: &BTreeSet<u64>) -> (peers: Vec<u64>)
    ensures
        lists(peers@, members@.remove(local).difference(skip@)),
{
    let mut peers: Vec<u64> = Vec::new();
    let ghost mut done: Seq<u64> = Seq::empty();
    let ghost mut pos: Seq<int> = Seq::empty();
    for id in it: members.iter()
        invariant
            it.seq().unref().to_set() == members@,
            vstd::std_specs::btree::increasing_seq(it.seq()),
            done == it.seq().unref().take(it.index() as int),
            peers@.to_set() == done.to_set().remove(local).difference(skip@),
            pos.len() == peers@.len(),
            forall|m: int|
                0 <= m < pos.len() ==> 0 <= #[trigger] pos[m] < it.index() && peers@[m]
                    == it.seq().unref()[pos[m]],
            forall|m: int, n: int| 0 <= m < n < peers@.len() ==> peers@[m] < peers@[n],
            it.index() == it.seq().len() ==> done.to_set() == members@,
    {
        let ghost before = done;
        let ghost before_peers = peers@;
        proof {
            done = done.push(*id);
            before.lemma_push_to_set_commute(*id);
        }
        assert(it.seq().unref().take(it.index() + 1) =~= done);
        assert(it.index() + 1 == it.seq().len() ==> it.seq().unref().take(it.index() + 1)
            =~= it.seq().unref());
        if *id != local && !skip.contains(id) {
            peers.push(*id);
            proof {
                assert forall|m: int| 0 <= m < before_peers.len() implies before_peers[m]
                    < *id by {
                    lemma_increasing_below(it.seq(), pos[m], it.index() as int);
                }
                pos = pos.push(it.index() as int);
                before_peers.lemma_push_to_set_commute(*id);
            }
        }
        assert(peers@.to_set() =~= done.to_set().remove(local).difference(skip@));
    }
    peers
}

/// The ids of `sent` that are also in `members`.
fn kept_ids(sent: &BTreeSet<u64>, members: &BTreeSet<u64>) -> (kept: BTreeSet<u64>)
    ensures
        kept@ == sent@.intersect(members@),
{
    let mut kept: BTreeSet<u64> = BTreeSet::new();
    let ghost mut done: Seq<u64> = Seq::empty();
    for id in it: members.iter()
        invariant
            it.seq().unref().to_set() == members@,
            done == it.seq().unref().take(it.index() as int),
            kept@ == sent@.intersect(done.to_set()),
            it.index() == it.seq().len() ==> done.to_set() == members@,
    {
        let ghost before = done;
        proof {
            done = done.push(*id);
            before.lemma_push_to_set_commute(*id);
        }
        assert(it.seq().unref().take(it.index() + 1) =~= done);
        assert(it.index() + 1 == it.seq().len() ==> it.seq().unref().take(it.index() + 1)
            =~= it.seq().unref());
        if sent.contains(id) {
            kept.insert(*id);
        }
        assert(kept@ =~= sent@.intersect(done.to_set()));
    }
    kept
}

/// The entries of `m` whose keys are in `members`.
fn kept_entries(m: &BTreeMap<u64, u64>, members: &BTreeSet<u64>) -> (kept: BTreeMap<u64, u64>)
    ensures
        kept@ == m@.restrict(members@),
{
    let mut kept: BTreeMap<u64, u64> = BTreeMap::new();
    let ghost mut done: Seq<u64> = Seq::empty();
    for id in it: members.iter()
        invariant
            it.seq().unref().to_set() == members@,
            done == it.seq().unref().take(it.index() as int),
            kept@ == m@.restrict(done.to_set()),
            it.index() == it.seq().len() ==> done.to_set() == members@,
    {
        let ghost before = done;
        proof {
            done = done.push(*id);
            before.lemma_push_to_set_commute(*id);
        }
        assert(it.seq().unref().take(it.index() + 1) =~= done);
        assert(it.index() + 1 == it.seq().len() ==> it.seq().unref().take(it.index() + 1)
            =~= it.seq().unref());
        if let Some(last) = m.get(id) {
            kept.insert(*id, *last);
        }
        assert(kept@ =~= m@.restrict(done.to_set()));
    }
    kept
}

/// `prefix`, then `n` in decimal, then `suffix`.
fn numbered(prefix: &str, n: u64, suffix: &str) -> (text: String)
    ensures
        text@ == prefix@ + decimal(n as nat) + suffix@,
{
    let mut text = String::from_str(prefix);
    append_decimal(&mut text, n);
    text.append(suffix);
    text
}

/// `prefix` followed by `detail`.
fn joined_text(prefix: &str, detail: &str) -> (text: String)
    ensures
        text@ == prefix@ + detail@,
{
    let mut text = String::from_str(prefix);
    text.append(detail);
    text
}

/// A lobby's advertised game key and host match this game and the lobby's owner.
pub open spec fn advertises(game_data: Option<&str>, host_data: Option<&str>, game_key: Seq<char>, owner: u64) -> bool {
    match (game_data, host_data) {
        (Some(g), Some(h)) => g@ == game_key && h@ == decimal(owner as nat),
        _ => false,
    }
}

/// One machine's side of a Steam lobby.
pub struct Network {
    connected: bool,
    local: u64,
    game_key: String,
    lobby: Option<u64>,
    owner: Option<u64>,
    members: BTreeSet<u64>,
    allowed: BTreeSet<u64>,
    sent_to: BTreeSet<u64>,
    last_command: BTreeMap<u64, u64>,
    generation: u64,
    pending: bool,
    pending_since: Option<u64>,
    pending_guest: bool,
    status: String,
    revision: u64,
    applied_revision: u64,
    assembly: Option<Assembly>,
    sequence: u64,
    last_sent: u64,
    last_sent_tick: u64,
    last_received: u64,
    force: bool,
}

impl View for Network {
    type V = NetworkModel;

    closed spec fn view(&self) -> NetworkModel {
        NetworkModel {
            connected: self.connected,
            local: self.local,
            game_key: self.game_key@,
            lobby: self.lobby,
            owner: self.owner,
            members: self.members@,
            allowed: self.allowed@,
            sent_to: self.sent_to@,
            last_command: self.last_command@,
            generation: self.generation,
            pending: self.pending,
            pending_since: self.pending_since,
            pending_guest: self.pending_guest,
            status: self.status@,
            revision: self.revision,
            applied_revision: self.applied_revision,
            assembly: pending(self.assembly),
            sequence: self.sequence,
            last_sent: self.last_sent,
            last_sent_tick: self.last_sent_tick,
            last_received: self.last_received,
            force: self.force,
        }
    }
}

impl Network {
    /// Starts the session. `connected` is whether Steam is running and logged on, `local` this
    /// machine's Steam id (0 offline), `game_key` the key that a compatible lobby advertises,
    /// `now` a monotonic clock reading in nanoseconds. With `join_lobby`, a join of that lobby
    /// starts at once.
    pub fn new(connected: bool, local: u64, game_key: String, join_lobby: Option<u64>, now: u64) -> (result: Result<(Network, Option<JoinRequest>), &'static str>)
        ensures
            match join_lobby {
                None => result matches Ok((network, request)) && request is None && network@
                    == (NetworkModel {
                    status: if connected {
                        "Create a lobby or join a friend's lobby."@
                    } else {
                        "Steam offline. Solo factory is available."@
                    },
                    ..NetworkModel::fresh(connected, local, game_key@, now)
                }),
                Some(id) => if !connected {
                    result matches Err(e) && e@ == "Steam is required to join a lobby"@
                } else if id == 0 {
                    result matches Err(e) && e@ == "invalid lobby ID"@
                } else {
                    result matches Ok((network, request)) && request matches Some(r) && r.lobby
                        == id && r.generation == 1 && r.departure is None && network@
                        == NetworkModel::fresh(connected, local, game_key@, now).joining(id, now)
                },
            },
            result matches Ok((network, _)) ==> network@.wf(),
    {
        let mut network = Network {
            connected,
            local,
            game_key,
            lobby: None,
            owner: None,
            members: BTreeSet::new(),
            allowed: BTreeSet::new(),
            sent_to: BTreeSet::new(),
            last_command: BTreeMap::new(),
            generation: 0,
            pending: false,
            pending_since: None,
            pending_guest: false,
            status: String::from_str("Create a lobby or join a friend's lobby."),
            revision: 1,
            applied_revision: 0,
            assembly: None,
            sequence: 0,
            last_sent: now,
            last_sent_tick: 0,
            last_received: now,
            force: false,
        };
        if !connected {
            if join_lobby.is_some() {
                return Err("Steam is required to join a lobby");
            }
            network.status = String::from_str("Steam offline. Solo factory is available.");
            return Ok((network, None));
        }
        match join_lobby {
            None => Ok((network, None)),
            Some(id) => {
                let request = network.join(id, now)?;
                Ok((network, Some(request)))
            },
        }
    }

    pub fn connected(&self) -> (connected: bool)
        ensures
            connected == self@.connected,
    {
        self.connected
    }

    /// A lobby request is under way.
    pub fn busy(&self) -> (busy: bool)
        ensures
            busy == self@.pending,
    {
        self.pending
    }

    /// The line the lobby screen shows.
    pub fn status(&self) -> (status: &str)
        ensures
            status@ == self@.status,
    {
        self.status.as_str()
    }

    pub fn lobby_id(&self) -> (lobby: Option<u64>)
        ensures
            lobby == self@.lobby,
    {
        self.lobby
    }

    pub fn members_len(&self) -> (n: usize)
        ensures
            n == self@.members.len(),
    {
        proof {
            lemma_ids_ordered();
        }
        self.members.len()
    }

    pub fn has_state(&self) -> (has: bool)
        ensures
            has == self@.has_state(),
    {
        !self.is_guest_or_joining() || self.applied_revision > 0
    }

    pub fn can_create_or_join(&self) -> (can: bool)
        ensures
            can == self@.can_create_or_join(),
    {
        self.connected && !self.pending && self.lobby.is_none()
    }

    pub fn is_host(&self) -> (host: bool)
        ensures
            host == self@.is_host(),
    {
        match (self.lobby, self.owner) {
            (Some(_), Some(owner)) => owner == self.local,
            _ => false,
        }
    }

    pub fn is_guest_or_joining(&self) -> (guest: bool)
        ensures
            guest == self@.is_guest_or_joining(),
    {
        self.pending_guest || (self.lobby.is_some() && match self.owner {
            Some(owner) => owner != self.local,
            None => true,
        })
    }

    /// The ids that may open a network session with this machine.
    pub fn allowed(&self) -> (allowed: &BTreeSet<u64>)
        ensures
            allowed@ == self@.allowed,
    {
        &self.allowed
    }

    fn departure(&self) -> (d: Option<Departure>)
        ensures
            self@.departs(d),
    {
        if self.connected {
            if let Some(lobby) = self.lobby {
                let solo: BTreeSet<u64> = BTreeSet::new();
                let peers = peers_of(&self.members, self.local, &solo);
                assert(self@.members.remove(self.local).difference(Set::empty()) =~= self@.members.remove(self.local));
                return Some(Departure { lobby, peers });
            }
        }
        None
    }

    /// Leaves the lobby, or gives up the lobby request: the session is solo again, and what it
    /// returns is for Steam (the lobby to leave and whom to say goodbye to).
    pub fn leave(&mut self) -> (departure: Option<Departure>)
        requires
            old(self)@.generation < u64::MAX,
        ensures
            old(self)@.wf() ==> final(self)@.wf(),
            final(self)@ == old(self)@.closed(),
            old(self)@.departs(departure),
    {
        let departure = self.departure();
        self.generation += 1;
        self.pending = false;
        self.pending_since = None;
        self.pending_guest = false;
        self.lobby = None;
        self.owner = None;
        self.members.clear();
        self.sent_to.clear();
        self.last_command.clear();
        self.allowed.clear();
        self.assembly = None;
        self.applied_revision = 0;
        self.status = String::from_str("Lobby closed. Solo factory is available.");
        departure
    }

    /// Asks for a new friends-only lobby; returns the generation that tags the request.
    pub fn create(&mut self, now: u64) -> (result: Result<u64, &'static str>)
        requires
            old(self)@.generation < u64::MAX,
        ensures
            old(self)@.wf() ==> final(self)@.wf(),
            if old(self)@.pending || old(self)@.lobby is Some {
                result matches Err(e) && e@ == "leave the current lobby first"@ && final(self)@
                    == old(self)@
            } else if !old(self)@.connected {
                result matches Err(e) && e@ == "Steam is offline"@ && final(self)@ == old(self)@
            } else {
                result == Ok::<u64, &'static str>((old(self)@.generation + 1) as u64)
                    && final(self)@ == (NetworkModel {
                    generation: (old(self)@.generation + 1) as u64,
                    pending: true,
                    pending_since: Some(now),
                    status: "Creating friends-only lobby…"@,
                    ..old(self)@
                })
            },
    {
        if self.pending || self.lobby.is_some() {
            return Err("leave the current lobby first");
        }
        if !self.connected {
            return Err("Steam is offline");
        }
        self.generation += 1;
        self.pending = true;
        self.pending_since = Some(now);
        self.status = String::from_str("Creating friends-only lobby…");
        Ok(self.generation)
    }

    /// Starts joining lobby `id`, leaving the current one first.
    pub fn join(&mut self, id: u64, now: u64) -> (result: Result<JoinRequest, &'static str>)
        requires
            old(self)@.generation < u64::MAX,
        ensures
            old(self)@.wf() ==> final(self)@.wf(),
            if id == 0 {
                result matches Err(e) && e@ == "invalid lobby ID"@ && final(self)@ == old(self)@
            } else if !old(self)@.connected {
                result matches Err(e) && e@ == "Steam is offline"@ && final(self)@ == old(
                    self,
                )@.closed()
            } else {
                result matches Ok(r) && r.lobby == id && r.generation == old(self)@.generation
                    + 1 && old(self)@.departs(r.departure) && final(self)@ == old(self)@.joining(
                    id,
                    now,
                )
            },
    {
        if id == 0 {
            return Err("invalid lobby ID");
        }
        let departure = self.leave();
        if !self.connected {
            return Err("Steam is offline");
        }
        self.pending = true;
        self.pending_since = Some(now);
        self.pending_guest = true;
        self.status = numbered("Joining lobby ", id, "…");
        Ok(JoinRequest { lobby: id, generation: self.generation, departure })
    }

    /// Checks that friends can be invited to the lobby; returns the lobby for Steam's invite
    /// dialog. `overlay_enabled` is whether Steam's overlay is available.
    pub fn invite(&self, overlay_enabled: bool) -> (result: Result<u64, &'static str>)
        ensures
            match self@.lobby {
                None => result matches Err(e) && e@ == "create or join a lobby first"@,
                Some(lobby) => if !self@.connected {
                    result matches Err(e) && e@ == "Steam is offline"@
                } else if !overlay_enabled {
                    result matches Err(e) && e@
                        == "Steam overlay unavailable. Share the lobby ID or ask a friend to join with --join-lobby ID."@
                } else {
                    result == Ok::<u64, &'static str>(lobby)
                },
            },
    {
        let lobby = match self.lobby {
            Some(lobby) => lobby,
            None => return Err("create or join a lobby first"),
        };
        if !self.connected {
            return Err("Steam is offline");
        }
        if !overlay_enabled {
            return Err(
                "Steam overlay unavailable. Share the lobby ID or ask a friend to join with --join-lobby ID.",
            );
        }
        Ok(lobby)
    }

    /// Numbers a command for the host; returns the host to send it to and the message to send.
    /// Once it is sent, `command_sent` records that.
    pub fn command(&mut self, action: Action) -> (result: Result<(u64, Message), &'static str>)
        requires
            old(self)@.sequence < u64::MAX,
        ensures
            old(self)@.wf() ==> final(self)@.wf(),
            if !(old(self)@.is_guest_or_joining() && old(self)@.lobby is Some) {
                result matches Err(e) && e@ == "wait for the host's lobby"@ && final(self)@ == old(
                    self,
                )@
            } else {
                let numbered = NetworkModel { sequence: (old(self)@.sequence + 1) as u64, ..old(self)@ };
                final(self)@ == numbered && match old(self)@.owner {
                    Some(owner) => result matches Ok((peer, message)) && peer == owner && message@
                        == (MessageModel::Command { sequence: numbered.sequence, action }),
                    None => result matches Err(e) && e@ == "host is unavailable"@,
                }
            },
    {
        if !(self.is_guest_or_joining() && self.lobby.is_some()) {
            return Err("wait for the host's lobby");
        }
        self.sequence += 1;
        match self.owner {
            Some(owner) => Ok((owner, Message::Command { sequence: self.sequence, action })),
            None => Err("host is unavailable"),
        }
    }

    /// Records that a command reached the host's queue.
    pub fn command_sent(&mut self)
        ensures
            old(self)@.wf() ==> final(self)@.wf(),
            final(self)@ == (NetworkModel { status: "Request sent to host."@, ..old(self)@ }),
    {
        self.status = String::from_str("Request sent to host.");
    }

    /// A friend's invitation to `lobby`: joined when no lobby and no request is under way;
    /// when the join cannot start, its reason becomes the status.
    pub fn on_invite(&mut self, lobby: u64, now: u64) -> (request: Option<JoinRequest>)
        requires
            old(self)@.generation < u64::MAX,
        ensures
            old(self)@.wf() ==> final(self)@.wf(),
            if old(self)@.pending || old(self)@.lobby is Some {
                request is None && final(self)@ == old(self)@
            } else if lobby == 0 {
                request is None && final(self)@ == (NetworkModel {
                    status: "invalid lobby ID"@,
                    ..old(self)@
                })
            } else if !old(self)@.connected {
                request is None && final(self)@ == (NetworkModel {
                    status: "Steam is offline"@,
                    ..old(self)@.closed()
                })
            } else {
                request matches Some(r) && r.lobby == lobby && r.generation == old(self)@.generation
                    + 1 && old(self)@.departs(r.departure) && final(self)@ == old(self)@.joining(
                    lobby,
                    now,
                )
            },
    {
        if self.pending || self.lobby.is_some() {
            return None;
        }
        match self.join(lobby, now) {
            Ok(request) => Some(request),
            Err(reason) => {
                self.status = String::from_str(reason);
                None
            },
        }
    }

    /// Steam answered the lobby request tagged `generation`. Returns whether the answer is for
    /// the request under way; if so the request is over. An answer that is not (a stale one)
    /// changes nothing, and a lobby it entered is to be left.
    pub fn begin_joined(&mut self, generation: u64) -> (current: bool)
        ensures
            old(self)@.wf() ==> final(self)@.wf(),
            current == (generation == old(self)@.generation && old(self)@.pending),
            current ==> final(self)@ == (NetworkModel {
                pending: false,
                pending_since: None,
                pending_guest: false,
                ..old(self)@
            }),
            !current ==> final(self)@ == old(self)@,
    {
        if generation != self.generation || !self.pending {
            return false;
        }
        self.pending = false;
        self.pending_since = None;
        self.pending_guest = false;
        true
    }

    /// Enters `lobby`, which this machine created (`created`) or joined, once Steam has
    /// answered. `owner` is the lobby's owner; `metadata_written` whether a created lobby's
    /// game key and host were published (the caller publishes them only when `created` and
    /// `owner` is this machine); `game_data` and `host_data` the lobby's advertised game key
    /// and host. Returns the rich-presence `connect` value that invites to the lobby.
    pub fn joined(
        &mut self,
        lobby: u64,
        created: bool,
        owner: u64,
        metadata_written: bool,
        game_data: Option<&str>,
        host_data: Option<&str>,
        now: u64,
    ) -> (result: Result<String, &'static str>)
        requires
            !old(self)@.pending,
        ensures
            old(self)@.wf() ==> final(self)@.wf(),
            if !old(self)@.connected {
                result matches Err(e) && e@ == "Steam is offline"@ && final(self)@ == old(self)@
            } else if created && owner != old(self)@.local {
                result matches Err(e) && e@ == "unexpected lobby owner"@ && final(self)@ == old(
                    self,
                )@
            } else if created && !metadata_written {
                result matches Err(e) && e@ == "could not publish factory lobby metadata"@
                    && final(self)@ == old(self)@
            } else if !advertises(game_data, host_data, old(self)@.game_key, owner) {
                result matches Err(e) && e@ == "incompatible Bozz-torio scene, protocol, or host"@
                    && final(self)@ == old(self)@
            } else {
                result matches Ok(connect) && connect@ == "+connect_lobby "@ + decimal(lobby as nat)
                    && final(self)@ == (NetworkModel {
                    lobby: Some(lobby),
                    owner: Some(owner),
                    pending_guest: false,
                    last_received: now,
                    status: if created {
                        "Lobby "@ + decimal(lobby as nat)
                            + " created. Invite friends; this machine hosts and saves."@
                    } else {
                        "Joined lobby "@ + decimal(lobby as nat)
                            + ". Waiting for the host's factory…"@
                    },
                    ..old(self)@
                })
            },
    {
        if !self.connected {
            return Err("Steam is offline");
        }
        if created {
            if owner != self.local {
                return Err("unexpected lobby owner");
            }
            if !metadata_written {
                return Err("could not publish factory lobby metadata");
            }
        }
        proof {
            reveal_strlit("");
        }
        let host = numbered("", owner, "");
        assert(host@ =~= decimal(owner as nat));
        let compatible = match (game_data, host_data) {
            (Some(g), Some(h)) => same_text(g, self.game_key.as_str()) && same_text(h, host.as_str()),
            _ => false,
        };
        if !compatible {
            return Err("incompatible Bozz-torio scene, protocol, or host");
        }
        self.lobby = Some(lobby);
        self.owner = Some(owner);
        self.pending_guest = false;
        self.last_received = now;
        self.status = if created {
            numbered("Lobby ", lobby, " created. Invite friends; this machine hosts and saves.")
        } else {
            numbered("Joined lobby ", lobby, ". Waiting for the host's factory…")
        };
        let connect = numbered("+connect_lobby ", lobby, "");
        assert(connect@ =~= "+connect_lobby "@ + decimal(lobby as nat));
        Ok(connect)
    }

    /// A lobby request failed for `reason`; a failed join is reported in `change`.
    pub fn join_failed(&mut self, reason: &str, created: bool, change: &mut Change)
        ensures
            old(self)@.wf() ==> final(self)@.wf(),
            final(self)@ == (NetworkModel { status: reason@, ..old(self)@ }),
            final(change).join_failed == !created,
            final(change).state == old(change).state,
            final(change).structural == old(change).structural,
            final(change).guest_lost == old(change).guest_lost,
    {
        self.status = String::from_str(reason);
        change.join_failed = !created;
    }

    /// Gives up a lobby request that has waited longer than the timeout; what it returns is
    /// for Steam, as with `leave`.
    pub fn check_pending_timeout(&mut self, now: u64, change: &mut Change) -> (departure: Option<Departure>)
        requires
            old(self)@.generation < u64::MAX,
        ensures
            old(self)@.wf() ==> final(self)@.wf(),
            if old(self)@.pending_since matches Some(start) && elapsed(start, now) > TIMEOUT_NANOS {
                &&& final(self)@ == (NetworkModel {
                    status: "Steam lobby request timed out."@,
                    ..old(self)@.closed()
                })
                &&& old(self)@.departs(departure)
                &&& final(change).join_failed == old(self)@.pending_guest
            } else {
                &&& final(self)@ == old(self)@
                &&& departure is None
                &&& final(change).join_failed == old(change).join_failed
            },
            final(change).state == old(change).state,
            final(change).structural == old(change).structural,
            final(change).guest_lost == old(change).guest_lost,
    {
        let expired = match self.pending_since {
            Some(start) => now.saturating_sub(start) > TIMEOUT_NANOS,
            None => false,
        };
        if !expired {
            return None;
        }
        change.join_failed = self.pending_guest;
        let departure = self.leave();
        self.status = String::from_str("Steam lobby request timed out.");
        departure
    }

    /// Compares the session with Steam's view of the lobby: whether Steam is logged on, the
    /// lobby's owner, and its members. When the session no longer holds it leaves the lobby;
    /// otherwise it adopts the members and, on the host, lists those that have not yet been
    /// sent the factory.
    pub fn check_membership(
        &mut self,
        logged_on: bool,
        lobby_owner: u64,
        members: BTreeSet<u64>,
        change: &mut Change,
    ) -> (result: Result<Membership, &'static str>)
        requires
            old(self)@.generation < u64::MAX,
        ensures
            old(self)@.wf() ==> final(self)@.wf(),
            final(change).state == old(change).state,
            final(change).structural == old(change).structural,
            final(change).join_failed == old(change).join_failed,
            if old(self)@.owner is None {
                &&& result matches Err(e) && e@ == "lobby has no host"@
                &&& final(self)@ == old(self)@
                &&& final(change).guest_lost == old(change).guest_lost
            } else if old(self)@.membership_lost(logged_on, lobby_owner, members@) {
                &&& result matches Ok(Membership::Lost(departure)) && old(self)@.departs(departure)
                &&& final(self)@ == (NetworkModel {
                    status: "Host left or Steam disconnected. Returned to solo menu."@,
                    ..old(self)@.closed()
                })
                &&& final(change).guest_lost == !old(self)@.is_host()
            } else {
                &&& final(self)@ == old(self)@.with_members(members@)
                &&& final(change).guest_lost == old(change).guest_lost
                &&& result matches Ok(Membership::Kept(peers)) && if old(self)@.is_host() {
                    lists(peers@, members@.remove(old(self)@.local).difference(final(self)@.sent_to))
                } else {
                    peers@.len() == 0
                }
            },
    {
        let owner = match self.owner {
            Some(owner) => owner,
            None => return Err("lobby has no host"),
        };
        if !logged_on || lobby_owner != owner || !members.contains(&owner) || !members.contains(
            &self.local,
        ) {
            change.guest_lost = !self.is_host();
            let departure = self.leave();
            self.status = String::from_str(
                "Host left or Steam disconnected. Returned to solo menu.",
            );
            return Ok(Membership::Lost(departure));
        }
        let host = self.is_host();
        self.allowed = if host {
            members.clone()
        } else {
            let mut only: BTreeSet<u64> = BTreeSet::new();
            only.insert(owner);
            assert(only@ =~= set![owner]);
            only
        };
        self.sent_to = kept_ids(&self.sent_to, &members);
        self.last_command = kept_entries(&self.last_command, &members);
        self.members = members;
        let peers = if host {
            peers_of(&self.members, self.local, &self.sent_to)
        } else {
            Vec::new()
        };
        Ok(Membership::Kept(peers))
    }

    /// Records that `peer` was sent the factory.
    pub fn state_sent(&mut self, peer: u64)
        ensures
            old(self)@.wf() ==> final(self)@.wf(),
            final(self)@ == (NetworkModel { sent_to: old(self)@.sent_to.insert(peer), ..old(self)@ }),
    {
        self.sent_to.insert(peer);
    }

    /// Sending the factory to a new member failed with `error`.
    pub fn sync_failed(&mut self, error: &str)
        ensures
            old(self)@.wf() ==> final(self)@.wf(),
            final(self)@ == (NetworkModel {
                status: "Could not sync friend: "@ + error@,
                ..old(self)@
            }),
    {
        self.status = joined_text("Could not sync friend: ", error);
    }

    /// Handles one message from `sender` (`None` when Steam names no sender): a goodbye, a
    /// guest's command on the host, a snapshot part or a refusal on a guest. `now` is a
    /// monotonic clock reading in nanoseconds.
    pub fn receive(
        &mut self,
        sender: Option<u64>,
        message: Message,
        game: &mut Game,
        change: &mut Change,
        now: u64,
    ) -> (reception: Reception)
        requires
            old(self)@.generation < u64::MAX,
            old(game)@.wf(),
            old(self)@.applies(sender, message@) ==> (message@ matches MessageModel::Command {
                action,
                ..
            } && action.fits(old(game)@)),
        ensures
            old(self)@.wf() ==> final(self)@.wf(),
            ({
                let n = old(self)@;
                let g = old(game)@;
                if !(sender matches Some(s) && n.hears(s)) {
                    &&& reception is Done
                    &&& final(self)@ == n
                    &&& final(game)@ == g
                    &&& *final(change) == *old(change)
                } else {
                    let s = sender->0;
                    match message@ {
                        MessageModel::Goodbye => if Some(s) == n.owner {
                            &&& reception matches Reception::Closed(departure) && n.departs(
                                departure,
                            )
                            &&& final(self)@ == (NetworkModel {
                                status: "Host closed the lobby. Returned to solo menu."@,
                                ..n.closed()
                            })
                            &&& final(game)@ == g
                            &&& *final(change) == (Change { guest_lost: true, ..*old(change) })
                        } else {
                            &&& reception is Done
                            &&& final(self)@ == (NetworkModel {
                                sent_to: n.sent_to.remove(s),
                                ..n
                            })
                            &&& final(game)@ == g
                            &&& *final(change) == *old(change)
                        },
                        MessageModel::Command { sequence, action } => if !n.is_host()
                            || sequence <= n.last_from(s) {
                            &&& reception is Done
                            &&& final(self)@ == n
                            &&& final(game)@ == g
                            &&& *final(change) == *old(change)
                        } else {
                            let taken = NetworkModel {
                                last_command: n.last_command.insert(s, sequence),
                                ..n
                            };
                            match action.refusal(g) {
                                None => {
                                    &&& reception is Done
                                    &&& final(self)@ == (NetworkModel { force: true, ..taken })
                                    &&& final(game)@ == action.applied(g)
                                    &&& *final(change) == (Change {
                                        state: true,
                                        structural: old(change).structural
                                            || action.is_structural(),
                                        ..*old(change)
                                    })
                                },
                                Some(reason) => {
                                    &&& reception matches Reception::Reply(peer, reply) && peer
                                        == s && reply@ == (MessageModel::Rejected {
                                        sequence,
                                        reason,
                                    })
                                    &&& final(self)@ == taken
                                    &&& final(game)@ == g
                                    &&& *final(change) == *old(change)
                                },
                            }
                        },
                        MessageModel::StatePart { revision, index, count, data } => if n.is_host() {
                            &&& reception is Done
                            &&& final(self)@ == n
                            &&& final(game)@ == g
                            &&& *final(change) == *old(change)
                        } else {
                            let step = receive_part(
                                n.assembly,
                                n.applied_revision,
                                revision,
                                index,
                                count,
                                data,
                                encode_utf8(data).len() as usize,
                                now,
                            );
                            &&& final(game)@ == g
                            &&& *final(change) == *old(change)
                            &&& match step.1 {
                                Err(e) => {
                                    &&& reception is Done
                                    &&& final(self)@ == (NetworkModel {
                                        assembly: None,
                                        status: "Rejected invalid host snapshot: "@ + e.text(),
                                        ..n
                                    })
                                },
                                Ok(None) => {
                                    &&& reception is Done
                                    &&& final(self)@ == (NetworkModel { assembly: step.0, ..n })
                                },
                                Ok(Some(json)) => {
                                    &&& reception matches Reception::Snapshot(r, bytes) && r
                                        == revision && bytes@ == json
                                    &&& final(self)@ == (NetworkModel { assembly: step.0, ..n })
                                },
                            }
                        },
                        MessageModel::Rejected { sequence, reason } => {
                            &&& reception is Done
                            &&& final(self)@ == if n.is_host() {
                                n
                            } else {
                                NetworkModel { status: reason, ..n }
                            }
                            &&& final(game)@ == g
                            &&& *final(change) == *old(change)
                        },
                    }
                }
            }),
    {
        let s = match sender {
            Some(s) => s,
            None => return Reception::Done,
        };
        let host = self.is_host();
        let from_owner = match self.owner {
            Some(owner) => owner == s,
            None => false,
        };
        if s == self.local || !self.members.contains(&s) || (!host && !from_owner) {
            return Reception::Done;
        }
        match message {
            Message::Goodbye => {
                if from_owner {
                    change.guest_lost = true;
                    let departure = self.leave();
                    self.status = String::from_str("Host closed the lobby. Returned to solo menu.");
                    Reception::Closed(departure)
                } else {
                    self.sent_to.remove(&s);
                    Reception::Done
                }
            },
            Message::Command { sequence, action } => {
                if !host {
                    return Reception::Done;
                }
                let last = match self.last_command.get(&s) {
                    Some(last) => *last,
                    None => 0,
                };
                if sequence <= last {
                    return Reception::Done;
                }
                self.last_command.insert(s, sequence);
                let structural = action.structural();
                match action.apply(game) {
                    Ok(()) => {
                        change.state = true;
                        change.structural = change.structural || structural;
                        self.force = true;
                        Reception::Done
                    },
                    Err(reason) => Reception::Reply(
                        s,
                        Message::Rejected { sequence, reason: String::from_str(reason) },
                    ),
                }
            },
            Message::StatePart { revision, index, count, data } => {
                if host {
                    return Reception::Done;
                }
                match accept_state_part(
                    &mut self.assembly,
                    self.applied_revision,
                    revision,
                    index,
                    count,
                    data.as_str(),
                    now,
                ) {
                    Err(e) => {
                        self.assembly = None;
                        self.status = joined_text("Rejected invalid host snapshot: ", e.message().as_str());
                        Reception::Done
                    },
                    Ok(None) => Reception::Done,
                    Ok(Some(json)) => Reception::Snapshot(revision, json),
                }
            },
            Message::Rejected { sequence, reason } => {
                if !host {
                    self.status = reason;
                }
                Reception::Done
            },
        }
    }

    /// Shows the host's snapshot of `revision`, parsed into `next`: it replaces `game`, and
    /// `change` says whether the layout changed.
    pub fn adopt_snapshot(&mut self, revision: u64, next: Game, game: &mut Game, change: &mut Change, now: u64)
        ensures
            old(self)@.wf() ==> final(self)@.wf(),
            final(game)@ == next@,
            *final(change) == (Change {
                state: true,
                structural: old(change).structural || !same_layout(old(game)@, next@),
                ..*old(change)
            }),
            final(self)@ == (NetworkModel {
                applied_revision: revision,
                assembly: None,
                last_received: now,
                status: "Shared factory synced · host "@ + decimal(
                    (match old(self)@.owner {
                        Some(owner) => owner,
                        None => 0,
                    }) as nat,
                ),
                ..old(self)@
            }),
    {
        let different = crate::multiplayer::structural_difference(game, &next);
        change.structural = change.structural || different;
        *game = next;
        change.state = true;
        self.applied_revision = revision;
        self.assembly = None;
        self.last_received = now;
        let owner = match self.owner {
            Some(owner) => owner,
            None => 0,
        };
        proof {
            reveal_strlit("");
        }
        let status = numbered("Shared factory synced · host ", owner, "");
        assert(status@ =~= "Shared factory synced · host "@ + decimal(owner as nat));
        self.status = status;
    }

    /// The host's snapshot could not be read (`error` says why); it is dropped.
    pub fn reject_snapshot(&mut self, error: &str)
        ensures
            old(self)@.wf() ==> final(self)@.wf(),
            final(self)@ == (NetworkModel {
                assembly: None,
                status: "Rejected invalid host snapshot: "@ + error@,
                ..old(self)@
            }),
    {
        self.assembly = None;
        self.status = joined_text("Rejected invalid host snapshot: ", error);
    }

    /// Ends a round of lobby traffic at time `now`: drops a partial snapshot that waited too
    /// long, and a guest whose host has been silent too long leaves the lobby (the departure is
    /// for Steam).
    pub fn finish_update(&mut self, now: u64, change: &mut Change) -> (departure: Option<Departure>)
        requires
            old(self)@.generation < u64::MAX,
        ensures
            old(self)@.wf() ==> final(self)@.wf(),
            ({
                let n = old(self)@.expired_parts(now);
                if !n.is_host() && elapsed(n.last_received, now) > TIMEOUT_NANOS {
                    &&& final(self)@ == (NetworkModel {
                        status: "Host connection timed out. Returned to solo menu."@,
                        ..n.closed()
                    })
                    &&& n.departs(departure)
                    &&& *final(change) == (Change { guest_lost: true, ..*old(change) })
                } else {
                    &&& final(self)@ == n
                    &&& departure is None
                    &&& *final(change) == *old(change)
                }
            }),
    {
        expire_assembly(&mut self.assembly, now, TIMEOUT_NANOS);
        if !self.is_host() && now.saturating_sub(self.last_received) > TIMEOUT_NANOS {
            change.guest_lost = true;
            let departure = self.leave();
            self.status = String::from_str("Host connection timed out. Returned to solo menu.");
            return departure;
        }
        None
    }

    /// On the host, decides whether to share the factory (which has run `ticks` ticks) at time
    /// `now`; if so, returns the new revision and the members to send it to.
    pub fn publish(&mut self, ticks: u64, now: u64) -> (publication: Option<Publication>)
        requires
            old(self)@.revision < u64::MAX,
        ensures
            old(self)@.wf() ==> final(self)@.wf(),
            if old(self)@.publishes(ticks, now) {
                &&& publication matches Some(p) && p.revision == old(self)@.revision + 1 && lists(
                    p.peers@,
                    old(self)@.members.remove(old(self)@.local),
                )
                &&& final(self)@ == (NetworkModel {
                    revision: (old(self)@.revision + 1) as u64,
                    force: false,
                    last_sent: now,
                    last_sent_tick: ticks,
                    ..old(self)@
                })
            } else {
                &&& publication is None
                &&& final(self)@ == old(self)@
            },
    {
        proof {
            lemma_ids_ordered();
        }
        if !self.is_host() || self.members.len() < 2 {
            return None;
        }
        let e = now.saturating_sub(self.last_sent);
        if !self.force && e < PUBLISH_IDLE_NANOS && (ticks == self.last_sent_tick
            || e < PUBLISH_GAP_NANOS) {
            return None;
        }
        self.revision += 1;
        let none: BTreeSet<u64> = BTreeSet::new();
        let peers = peers_of(&self.members, self.local, &none);
        assert(self@.members.remove(self.local).difference(Set::empty()) =~= self@.members.remove(
            self.local,
        ));
        self.force = false;
        self.last_sent = now;
        self.last_sent_tick = ticks;
        Some(Publication { revision: self.revision, peers })
    }

    /// Sending the factory to the members failed with `error`.
    pub fn publish_failed(&mut self, error: &str)
        ensures
            old(self)@.wf() ==> final(self)@.wf(),
            final(self)@ == (NetworkModel {
                status: "Could not send factory state: "@ + error@,
                ..old(self)@
            }),
    {
        self.status = joined_text("Could not send factory state: ", error);
    }

    /// Makes the host share its factory at the next chance.
    pub fn force_publish(&mut self)
        ensures
            old(self)@.wf() ==> final(self)@.wf(),
            final(self)@ == (NetworkModel {
                force: if old(self)@.is_host() { true } else { old(self)@.force },
                ..old(self)@
            }),
    {
        if self.is_host() {
            self.force = true;
        }
    }
}

/// No machine is both the host of its lobby and a guest in one (or joining one).
pub proof fn lemma_roles_exclusive(n: NetworkModel)
    requires
        n.wf(),
    ensures
        !(n.is_host() && n.is_guest_or_joining()),
{
}

/// Leaving makes the session solo: no lobby, no role, nothing pending, no member records,
/// the local factory playable, and a new lobby can be created or joined exactly when Steam
/// is connected.
pub proof fn lemma_leaving_is_solo(n: NetworkModel)
    ensures
        n.closed().wf(),
        n.closed().lobby is None,
        !n.closed().is_host(),
        !n.closed().is_guest_or_joining(),
        n.closed().has_state(),
        !n.closed().pending,
        n.closed().members.is_empty(),
        n.closed().allowed.is_empty(),
        n.closed().can_create_or_join() == n.connected,
{
}

/// A guest's command is carried out at most once: once the host has taken command number
/// `sequence` from `sender`, the same command arriving again is not carried out, nor is any
/// older one.
pub proof fn lemma_command_taken_once(
    n: NetworkModel,
    sender: u64,
    sequence: u64,
    older: u64,
    action: Action,
    force: bool,
)
    requires
        n.applies(Some(sender), MessageModel::Command { sequence, action }),
        older <= sequence,
    ensures
        !(NetworkModel { last_command: n.last_command.insert(sender, sequence), force, ..n }).applies(
            Some(sender),
            MessageModel::Command { sequence: older, action },
        ),
{
}

/// Only the host carries out commands, and only from members of its lobby.
pub proof fn lemma_only_host_applies(n: NetworkModel, sender: Option<u64>, message: MessageModel)
    requires
        n.applies(sender, message),
    ensures
        n.is_host(),
        n.lobby is Some,
        n.members.contains(sender->0),
        sender->0 != n.local,
{
}

/// The host does not share a factory that nothing forced within the short gap after the last
/// share, nor an unchanged one (no tick since) before the long gap.
pub proof fn lemma_publish_throttled(n: NetworkModel, ticks: u64, now: u64)
    requires
        !n.force,
        elapsed(n.last_sent, now) < PUBLISH_GAP_NANOS || (ticks == n.last_sent_tick && elapsed(
            n.last_sent,
            now,
        ) < PUBLISH_IDLE_NANOS),
    ensures
        !n.publishes(ticks, now),
{
}

} // verus!
