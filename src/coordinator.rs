use vstd::prelude::*;

use crate::game::{rows, Game, GameState, Point};
use crate::connection::{StateData, TurnData};
use crate::session::{ClientEvent, ClientMessage};
use crate::snake::Direction;

verus! {

/// Most players admitted into one match.
pub const MAX_CLIENTS: usize = 4;

/// Milliseconds between two polls of the lobby.
pub const LOBBY_POLL: usize = 500;

/// The elements of `s` whose place is marked `true` in `mask`, in order.
pub open spec fn kept<T>(s: Seq<T>, mask: Seq<bool>) -> Seq<T>
    decreases s.len(),
{
    if s.len() == 0 {
        Seq::empty()
    } else {
        let rest = kept(s.drop_last(), mask);
        if mask[s.len() - 1] {
            rest.push(s.last())
        } else {
            rest
        }
    }
}

/// How many places `mask` marks `true`.
pub open spec fn count_marked(mask: Seq<bool>) -> nat
    decreases mask.len(),
{
    if mask.len() == 0 {
        0
    } else {
        count_marked(mask.drop_last()) + if mask.last() {
            1nat
        } else {
            0nat
        }
    }
}

/// Keeping the marked places keeps as many elements as the first
/// `s.len()` places of `mask` mark.
pub proof fn lemma_kept_len<T>(s: Seq<T>, mask: Seq<bool>)
    requires
        s.len() <= mask.len(),
    ensures
        kept(s, mask).len() == count_marked(mask.subrange(0, s.len() as int)),
    decreases s.len(),
{
    if s.len() > 0 {
        lemma_kept_len(s.drop_last(), mask);
        assert(mask.subrange(0, s.len() as int).drop_last() =~= mask.subrange(0, s.len() - 1));
    }
}

/// Every place of an all-`true` mask is counted.
proof fn lemma_count_all(n: nat)
    ensures
        count_marked(Seq::new(n, |i: int| true)) == n,
    decreases n,
{
    if n > 0 {
        assert(Seq::new(n, |i: int| true).drop_last() =~= Seq::new((n - 1) as nat, |i: int| true));
        lemma_count_all((n - 1) as nat);
    }
}

/// Unmarking one marked place lowers the count by one.
proof fn lemma_count_clear(m: Seq<bool>, x: int)
    requires
        0 <= x < m.len(),
        m[x],
    ensures
        count_marked(m.update(x, false)) + 1 == count_marked(m),
    decreases m.len(),
{
    let u = m.update(x, false);
    if x == m.len() - 1 {
        assert(u.drop_last() =~= m.drop_last());
    } else {
        assert(u.drop_last() =~= m.drop_last().update(x, false));
        lemma_count_clear(m.drop_last(), x);
    }
}

/// The places `0..n` that `ids` does not list.
pub open spec fn unlisted(ids: Seq<usize>, n: int) -> Seq<bool> {
    Seq::new(n as nat, |i: int| !ids.contains(i as usize))
}

/// Whether a session answered the gather with a direction.
pub open spec fn is_direction(o: Option<ClientMessage>) -> bool {
    o matches Some(ClientMessage::Direction(_))
}

/// The direction of an answer that holds one.
pub open spec fn direction_of(o: Option<ClientMessage>) -> Direction {
    match o {
        Some(ClientMessage::Direction(d)) => d,
        _ => Direction::Up,
    }
}

/// The places of `received` that hold a direction.
pub open spec fn answered(received: Seq<Option<ClientMessage>>) -> Seq<bool> {
    Seq::new(received.len(), |i: int| is_direction(received[i]))
}

/// The directions that arrived, in order.
pub open spec fn arrived(received: Seq<Option<ClientMessage>>) -> Seq<Direction> {
    kept(received, answered(received)).map_values(|o: Option<ClientMessage>| direction_of(o))
}

/// Listing distinct places below `n` leaves `n` less their number unlisted.
pub proof fn lemma_count_unlisted(ids: Seq<usize>, n: int)
    requires
        0 <= n <= usize::MAX,
        ids.no_duplicates(),
        forall|k: int| 0 <= k < ids.len() ==> ids[k] < n,
    ensures
        count_marked(unlisted(ids, n)) + ids.len() == n,
    decreases ids.len(),
{
    if ids.len() == 0 {
        assert(unlisted(ids, n) =~= Seq::new(n as nat, |i: int| true));
        lemma_count_all(n as nat);
    } else {
        let ids0 = ids.drop_last();
        let x = ids.last();
        lemma_count_unlisted(ids0, n);
        assert(!ids0.contains(x)) by {
            if ids0.contains(x) {
                let k = choose|k: int| 0 <= k < ids0.len() && ids0[k] == x;
                assert(ids[k] == ids[ids.len() - 1]);
            }
        }
        assert(ids =~= ids0.push(x));
        assert forall|i: int| 0 <= i < n implies #[trigger] unlisted(ids, n)[i] == unlisted(ids0, n).update(
            x as int,
            false,
        )[i] by {
            let u = i as usize;
            assert(u as int == i);
            if i == x as int {
                assert(ids[ids.len() - 1] == u);
                assert(ids.contains(u));
            } else {
                if ids.contains(u) {
                    let k = choose|k: int| 0 <= k < ids.len() && ids[k] == u;
                    assert(k != ids.len() - 1);
                    assert(ids0[k] == u);
                    assert(ids0.contains(u));
                }
                if ids0.contains(u) {
                    let k = choose|k: int| 0 <= k < ids0.len() && ids0[k] == u;
                    assert(ids[k] == u);
                    assert(ids.contains(u));
                }
            }
        }
        assert(unlisted(ids, n) =~= unlisted(ids0, n).update(x as int, false));
        lemma_count_clear(unlisted(ids0, n), x as int);
    }
}

/// Keeping the same places of two sequences of one length keeps them
/// aligned: both results have one length, and each place of the results
/// comes from one kept place of the inputs.
#[verifier::rlimit(30)]
pub proof fn lemma_kept_aligned<A, B>(s: Seq<A>, t: Seq<B>, mask: Seq<bool>)
    requires
        s.len() == t.len(),
        s.len() <= mask.len(),
    ensures
        kept(s, mask).len() == kept(t, mask).len(),
        kept(s, mask).len() <= s.len(),
        forall|j: int|
            #![trigger kept(s, mask)[j]]
            0 <= j < kept(s, mask).len() ==> exists|i: int|
                #![trigger s[i]]
                0 <= i < s.len() && mask[i] && kept(s, mask)[j] == s[i] && kept(t, mask)[j] == t[i],
    decreases s.len(),
{
    if s.len() > 0 {
        let s0 = s.drop_last();
        let t0 = t.drop_last();
        lemma_kept_aligned(s0, t0, mask);
        assert forall|j: int|
            #![trigger kept(s, mask)[j]]
            0 <= j < kept(s, mask).len() implies exists|i: int|
                #![trigger s[i]]
                0 <= i < s.len() && mask[i] && kept(s, mask)[j] == s[i] && kept(t, mask)[j] == t[i] by {
            if j < kept(s0, mask).len() {
                assert(kept(s, mask)[j] == kept(s0, mask)[j]);
                assert(kept(t, mask)[j] == kept(t0, mask)[j]);
                let i = choose|i: int|
                    #![trigger s0[i]]
                    0 <= i < s0.len() && mask[i] && kept(s0, mask)[j] == s0[i] && kept(t0, mask)[j] == t0[i];
                assert(s0[i] == s[i] && t0[i] == t[i]);
            } else {
                let i = s.len() - 1;
                assert(mask[i]);
                assert(kept(s, mask)[j] == s[i] && kept(t, mask)[j] == t[i]);
            }
        }
    }
}

/// Removes from `v` the elements whose place is marked `false` in `mask`,
/// keeping the order of the others.
fn retain_marked<T>(v: &mut Vec<T>, mask: &Vec<bool>)
    requires
        old(v)@.len() <= mask@.len(),
    ensures
        final(v)@ == kept(old(v)@, mask@),
{
    let ghost s = v@;
    let n = v.len();
    let mut out: Vec<T> = Vec::new();
    let mut i: usize = 0;
    while v.len() > 0
        invariant
            s == old(v)@,
            s.len() <= mask@.len(),
            n == s.len(),
            i <= n,
            i + v@.len() == n as int,
            v@ == s.subrange(i as int, s.len() as int),
            out@ == kept(s.subrange(0, i as int), mask@),
        decreases v@.len(),
    {
        let x = v.remove(0);
        assert(s.subrange(0, i + 1).drop_last() =~= s.subrange(0, i as int));
        if mask[i] {
            out.push(x);
        }
        i += 1;
        assert(v@ =~= s.subrange(i as int, s.len() as int));
    }
    assert(s.subrange(0, i as int) =~= s);
    *v = out;
}

/// The two channel ends of every session, indexed like the players of the
/// match: `senders[i]` carries events to player `i`'s worker, `receivers[i]`
/// carries what that worker sends back.
pub struct Channels<S, R> {
    pub size: usize,
    pub senders: Vec<S>,
    pub receivers: Vec<R>,
}

impl<S, R> Channels<S, R> {
    /// One sender and one receiver per session, `size` of them.
    pub open spec fn wf(&self) -> bool {
        self.senders@.len() == self.size && self.receivers@.len() == self.size
    }

    /// No session yet.
    pub fn new() -> (r: Channels<S, R>)
        ensures
            r.wf(),
            r.size == 0,
    {
        Channels { size: 0, senders: Vec::new(), receivers: Vec::new() }
    }

    /// Adds the channel ends of a newly admitted session at the last place.
    pub fn add_session(&mut self, sender: S, receiver: R)
        requires
            old(self).wf(),
            old(self).size < MAX_CLIENTS,
        ensures
            final(self).wf(),
            final(self).size == old(self).size + 1,
            final(self).senders@ == old(self).senders@.push(sender),
            final(self).receivers@ == old(self).receivers@.push(receiver),
    {
        self.senders.push(sender);
        self.receivers.push(receiver);
        self.size += 1;
    }
}

/// The sessions and the match hold one entry per player, index for index.
pub open spec fn aligned<S, R>(channels: &Channels<S, R>, game: &Game) -> bool {
    &&& channels.wf()
    &&& game.wf()
    &&& channels.size == game.snakes@.len()
}

/// Keeps the players whose place is marked in `mask` and removes the others,
/// from the channels and from the match together.
fn remove_marked<S, R>(mask: &Vec<bool>, channels: &mut Channels<S, R>, game: &mut Game)
    requires
        aligned(old(channels), old(game)),
        mask@.len() == old(channels).size,
    ensures
        aligned(final(channels), final(game)),
        final(channels).senders@ == kept(old(channels).senders@, mask@),
        final(channels).receivers@ == kept(old(channels).receivers@, mask@),
        final(game).snakes@ == kept(old(game).snakes@, mask@),
        final(game).states@ == kept(old(game).states@, mask@),
        final(game).food == old(game).food,
        final(game).width == old(game).width,
        final(game).height == old(game).height,
{
    proof {
        lemma_kept_aligned(game.snakes@, game.states@, mask@);
        lemma_kept_aligned(game.snakes@, channels.senders@, mask@);
        lemma_kept_aligned(game.snakes@, channels.receivers@, mask@);
    }
    retain_marked(&mut channels.senders, mask);
    retain_marked(&mut channels.receivers, mask);
    retain_marked(&mut game.snakes, mask);
    retain_marked(&mut game.states, mask);
    channels.size = game.snakes.len();
    assert forall|j: int| 0 <= j < game.snakes@.len() implies (#[trigger] game.snakes@[j]).wf() && (
    game.states@[j] != GameState::Lost ==> crate::game::inside(
        game.snakes@[j].head(),
        game.width as int,
        game.height as int,
    )) by {
        assert(game.snakes@[j] == kept(old(game).snakes@, mask@)[j]);
        let i = choose|i: int|
            #![trigger old(game).snakes@[i]]
            0 <= i < old(game).snakes@.len() && mask@[i] && kept(old(game).snakes@, mask@)[j]
                == old(game).snakes@[i] && kept(old(game).states@, mask@)[j] == old(game).states@[i];
        assert(old(game).snakes@[i].wf());
    }
}

/// Removes the players listed in `ids` (places in the current indexing, all
/// of them at once) from the channels and from the match together; every
/// other player keeps its order and moves down past the removed places.
pub fn remove_players<S, R>(ids: Vec<usize>, channels: &mut Channels<S, R>, game: &mut Game)
    requires
        aligned(old(channels), old(game)),
    ensures
        aligned(final(channels), final(game)),
        final(channels).senders@ == kept(old(channels).senders@, unlisted(ids@, old(channels).size as int)),
        final(channels).receivers@ == kept(
            old(channels).receivers@,
            unlisted(ids@, old(channels).size as int),
        ),
        final(game).snakes@ == kept(old(game).snakes@, unlisted(ids@, old(channels).size as int)),
        final(game).states@ == kept(old(game).states@, unlisted(ids@, old(channels).size as int)),
        final(game).food == old(game).food,
        final(game).width == old(game).width,
        final(game).height == old(game).height,
        ids@.no_duplicates() && (forall|k: int| 0 <= k < ids@.len() ==> ids@[k] < old(channels).size)
            ==> final(channels).size + ids@.len() == old(channels).size,
{
    let n = channels.size;
    let mut mask: Vec<bool> = Vec::new();
    let mut i: usize = 0;
    while i < n
        invariant
            i <= n,
            mask@ == unlisted(ids@, n as int).subrange(0, i as int),
        decreases n - i,
    {
        let mut listed = false;
        let mut k: usize = 0;
        while k < ids.len()
            invariant
                k <= ids@.len(),
                listed == exists|m: int| 0 <= m < k && ids@[m] == i,
            decreases ids@.len() - k,
        {
            if ids[k] == i {
                listed = true;
            }
            k += 1;
        }
        mask.push(!listed);
        i += 1;
        assert(mask@ =~= unlisted(ids@, n as int).subrange(0, i as int));
    }
    assert(mask@ =~= unlisted(ids@, n as int));
    proof {
        lemma_kept_len(game.snakes@, mask@);
        assert(mask@.subrange(0, n as int) =~= mask@);
        if ids@.no_duplicates() && (forall|k: int| 0 <= k < ids@.len() ==> ids@[k] < n) {
            lemma_count_unlisted(ids@, n as int);
        }
    }
    remove_marked(&mask, channels, game);
}

/// After an event was sent to every session, in index order, removes the
/// sessions whose send failed (`delivered[i]` is `false`), from the channels
/// and from the match together.
pub fn send_all<S, R>(delivered: &Vec<bool>, channels: &mut Channels<S, R>, game: &mut Game)
    requires
        aligned(old(channels), old(game)),
        delivered@.len() == old(channels).size,
    ensures
        aligned(final(channels), final(game)),
        final(channels).senders@ == kept(old(channels).senders@, delivered@),
        final(channels).receivers@ == kept(old(channels).receivers@, delivered@),
        final(game).snakes@ == kept(old(game).snakes@, delivered@),
        final(game).states@ == kept(old(game).states@, delivered@),
        final(channels).size == count_marked(delivered@),
        final(game).food == old(game).food,
        final(game).width == old(game).width,
        final(game).height == old(game).height,
{
    let n = delivered.len();
    let mut ids: Vec<usize> = Vec::new();
    let mut i: usize = 0;
    while i < n
        invariant
            n == delivered@.len(),
            i <= n,
            forall|m: usize| #[trigger] ids@.contains(m) <==> (m < i && !delivered@[m as int]),
        decreases n - i,
    {
        let ghost old_ids = ids@;
        if !delivered[i] {
            ids.push(i);
        }
        assert(ids@ == old_ids || (ids@ == old_ids.push(i) && !delivered@[i as int]));
        i += 1;
        assert forall|m: usize| #[trigger] ids@.contains(m) <==> (m < i && !delivered@[m as int]) by {
            if ids@.contains(m) {
                let k = choose|k: int| 0 <= k < ids@.len() && ids@[k] == m;
                if k < old_ids.len() {
                    assert(old_ids[k] == m);
                }
            }
            if old_ids.contains(m) {
                let k = choose|k: int| 0 <= k < old_ids.len() && old_ids[k] == m;
                assert(ids@[k] == m);
            }
            if m + 1 == i && !delivered@[m as int] {
                assert(ids@[ids@.len() - 1] == m);
            }
        }
    }
    assert(unlisted(ids@, n as int) =~= delivered@);
    proof {
        lemma_kept_len(game.snakes@, delivered@);
        assert(delivered@.subrange(0, n as int) =~= delivered@);
    }
    remove_players(ids, channels, game);
}

/// Gathers one answer per session, in index order: `received[i]` is what
/// session `i` sent, or `None` if its channel failed. The sessions that did
/// not send a direction (failed, or broke the protocol) are removed, from the channels and from the match
/// together, and the directions of the others are returned in order, one per
/// remaining player.
pub fn receive_all<S, R>(
    received: Vec<Option<ClientMessage>>,
    channels: &mut Channels<S, R>,
    game: &mut Game,
) -> (r: Vec<Direction>)
    requires
        aligned(old(channels), old(game)),
        received@.len() == old(channels).size,
    ensures
        aligned(final(channels), final(game)),
        r@ == arrived(received@),
        r@.len() == final(game).snakes@.len(),
        final(channels).senders@ == kept(old(channels).senders@, answered(received@)),
        final(channels).receivers@ == kept(old(channels).receivers@, answered(received@)),
        final(game).snakes@ == kept(old(game).snakes@, answered(received@)),
        final(game).states@ == kept(old(game).states@, answered(received@)),
        final(channels).size == count_marked(answered(received@)),
        final(game).food == old(game).food,
        final(game).width == old(game).width,
        final(game).height == old(game).height,
{
    let ghost mask = answered(received@);
    let n = received.len();
    let mut messages: Vec<Direction> = Vec::new();
    let mut ids: Vec<usize> = Vec::new();
    let mut i: usize = 0;
    while i < n
        invariant
            n == received@.len(),
            mask == answered(received@),
            i <= n,
            forall|m: usize| #[trigger] ids@.contains(m) <==> (m < i && !is_direction(received@[m as int])),
            messages@ == kept(received@.subrange(0, i as int), mask).map_values(
                |o: Option<ClientMessage>| direction_of(o),
            ),
        decreases n - i,
    {
        let ghost old_ids = ids@;
        assert(received@.subrange(0, i + 1).drop_last() =~= received@.subrange(0, i as int));
        match received[i] {
            Some(ClientMessage::Direction(direction)) => {
                messages.push(direction);
                assert(messages@ =~= kept(received@.subrange(0, i + 1), mask).map_values(
                    |o: Option<ClientMessage>| direction_of(o),
                ));
            },
            _ => {
                ids.push(i);
            },
        }
        assert(ids@ == old_ids || (ids@ == old_ids.push(i) && !is_direction(received@[i as int])));
        i += 1;
        assert forall|m: usize| #[trigger] ids@.contains(m) <==> (m < i && !is_direction(received@[m as int])) by {
            if ids@.contains(m) {
                let k = choose|k: int| 0 <= k < ids@.len() && ids@[k] == m;
                if k < old_ids.len() {
                    assert(old_ids[k] == m);
                }
            }
            if old_ids.contains(m) {
                let k = choose|k: int| 0 <= k < old_ids.len() && old_ids[k] == m;
                assert(ids@[k] == m);
            }
            if m + 1 == i && !is_direction(received@[m as int]) {
                assert(ids@[ids@.len() - 1] == m);
            }
        }
    }
    assert(received@.subrange(0, n as int) =~= received@);
    assert(unlisted(ids@, n as int) =~= mask);
    proof {
        lemma_kept_aligned(received@, game.snakes@, mask);
        lemma_kept_len(game.snakes@, mask);
        assert(mask.subrange(0, n as int) =~= mask);
    }
    remove_players(ids, channels, game);
    messages
}

/// What every player is told when the match starts: the board size, the
/// initial bodies and the food.
#[derive(Clone)]
pub struct GameConfig {
    pub width: usize,
    pub height: usize,
    pub snakes: Vec<Vec<Point>>,
    pub food: Point,
}

impl GameConfig {
    /// The configuration of `game` as it stands.
    pub fn new(game: &Game) -> (r: GameConfig)
        ensures
            r.width == game.width,
            r.height == game.height,
            rows(r.snakes@) == game.bodies(),
            r.food == game.food,
    {
        GameConfig { width: game.width, height: game.height, snakes: game.snakes_to_vec(), food: game.food }
    }
}

/// Whether the lobby takes in one more session when it holds `size`.
pub fn lobby_has_room(size: usize) -> (r: bool)
    ensures
        r == (size < MAX_CLIENTS),
{
    size < MAX_CLIENTS
}

/// Whether the lobby closes and the match starts: when it is full, or as soon
/// as any session asked to start.
pub fn lobby_closes(size: usize, start_requested: bool) -> (r: bool)
    ensures
        r == (size >= MAX_CLIENTS || start_requested),
{
    size >= MAX_CLIENTS || start_requested
}

/// What polling one session's channel in the lobby gave: nothing yet, a
/// request to start, a closed channel, or a message that has no place in the
/// lobby.
#[derive(Clone, Copy, Debug, PartialEq, Eq, Structural)]
pub enum LobbyPoll {
    Empty,
    StartRequested,
    Closed,
    Unexpected,
}

/// The sessions that stay in the lobby after a poll: those whose channel is
/// open and that kept to the protocol.
pub open spec fn lobby_keeps(polls: Seq<LobbyPoll>) -> Seq<bool> {
    Seq::new(polls.len(), |i: int| polls[i] == LobbyPoll::Empty || polls[i] == LobbyPoll::StartRequested)
}

/// Handles one lobby poll of every session, `polls[i]` being what session
/// `i` gave. Sessions whose channel closed or that broke the protocol are
/// removed; the result says whether any session asked to start.
pub fn lobby_poll<S, R>(polls: &Vec<LobbyPoll>, channels: &mut Channels<S, R>) -> (start: bool)
    requires
        old(channels).wf(),
        polls@.len() == old(channels).size,
    ensures
        final(channels).wf(),
        final(channels).senders@ == kept(old(channels).senders@, lobby_keeps(polls@)),
        final(channels).receivers@ == kept(old(channels).receivers@, lobby_keeps(polls@)),
        start == exists|i: int| 0 <= i < polls@.len() && polls@[i] == LobbyPoll::StartRequested,
{
    let mut mask: Vec<bool> = Vec::new();
    let mut start = false;
    let mut i: usize = 0;
    while i < polls.len()
        invariant
            i <= polls@.len(),
            mask@ == lobby_keeps(polls@).subrange(0, i as int),
            start == exists|k: int| 0 <= k < i && polls@[k] == LobbyPoll::StartRequested,
        decreases polls@.len() - i,
    {
        let poll = polls[i];
        mask.push(poll == LobbyPoll::Empty || poll == LobbyPoll::StartRequested);
        if poll == LobbyPoll::StartRequested {
            start = true;
        }
        i += 1;
        assert(mask@ =~= lobby_keeps(polls@).subrange(0, i as int));
    }
    assert(mask@ =~= lobby_keeps(polls@));
    proof {
        lemma_kept_aligned(channels.senders@, channels.receivers@, mask@);
    }
    retain_marked(&mut channels.senders, &mask);
    retain_marked(&mut channels.receivers, &mask);
    channels.size = channels.senders.len();
    start
}

/// Where the coordinator stands: admitting players, telling them the match
/// starts, sending the configuration, the phases of a turn, and the end of
/// the match.
#[derive(Clone, Copy, Debug, PartialEq, Eq, Structural)]
pub enum CoordinatorPhase {
    Lobby,
    ExitLobby,
    SendConfig,
    NewTurn,
    WaitDirection,
    Gather,
    SendTurnResult,
    SendState,
    Over,
}

/// The phase after `phase`, `size` sessions being live. A turn starts only
/// while some session is live; otherwise the match is over, and a new lobby
/// follows.
pub fn next_phase(phase: CoordinatorPhase, size: usize) -> (r: CoordinatorPhase)
    ensures
        r == match phase {
            CoordinatorPhase::Lobby => CoordinatorPhase::ExitLobby,
            CoordinatorPhase::ExitLobby => CoordinatorPhase::SendConfig,
            CoordinatorPhase::SendConfig | CoordinatorPhase::SendState => if size == 0 {
                CoordinatorPhase::Over
            } else {
                CoordinatorPhase::NewTurn
            },
            CoordinatorPhase::NewTurn => CoordinatorPhase::WaitDirection,
            CoordinatorPhase::WaitDirection => CoordinatorPhase::Gather,
            CoordinatorPhase::Gather => CoordinatorPhase::SendTurnResult,
            CoordinatorPhase::SendTurnResult => CoordinatorPhase::SendState,
            CoordinatorPhase::Over => CoordinatorPhase::Lobby,
        },
{
    match phase {
        CoordinatorPhase::Lobby => CoordinatorPhase::ExitLobby,
        CoordinatorPhase::ExitLobby => CoordinatorPhase::SendConfig,
        CoordinatorPhase::SendConfig | CoordinatorPhase::SendState => {
            if size == 0 {
                CoordinatorPhase::Over
            } else {
                CoordinatorPhase::NewTurn
            }
        },
        CoordinatorPhase::NewTurn => CoordinatorPhase::WaitDirection,
        CoordinatorPhase::WaitDirection => CoordinatorPhase::Gather,
        CoordinatorPhase::Gather => CoordinatorPhase::SendTurnResult,
        CoordinatorPhase::SendTurnResult => CoordinatorPhase::SendState,
        CoordinatorPhase::Over => CoordinatorPhase::Lobby,
    }
}

/// The event broadcast to every session in `phase`, if any: the start, the
/// configuration of `game`, the turn announcements, the outcome of the turn
/// and the players' states.
pub fn phase_event(phase: CoordinatorPhase, game: &Game) -> (r: Option<ClientEvent>)
    ensures
        match phase {
            CoordinatorPhase::ExitLobby => r matches Some(ClientEvent::ExitLobby),
            CoordinatorPhase::SendConfig => (r matches Some(ClientEvent::SendConfig(c)) && c.width
                == game.width && c.height == game.height && rows(c.snakes@) == game.bodies() && c.food
                == game.food),
            CoordinatorPhase::NewTurn => r matches Some(ClientEvent::SendNewTurn),
            CoordinatorPhase::WaitDirection => r matches Some(ClientEvent::WaitDirection),
            CoordinatorPhase::SendTurnResult => (r matches Some(ClientEvent::SendTurnResult(t)) && rows(
                t.snakes@,
            ) == game.bodies() && t.food == game.food),
            CoordinatorPhase::SendState => (r matches Some(ClientEvent::SendClientGameState(d))
                && d.states@ == game.states@),
            _ => r is None,
        },
{
    match phase {
        CoordinatorPhase::ExitLobby => Some(ClientEvent::ExitLobby),
        CoordinatorPhase::SendConfig => Some(ClientEvent::SendConfig(GameConfig::new(game))),
        CoordinatorPhase::NewTurn => Some(ClientEvent::SendNewTurn),
        CoordinatorPhase::WaitDirection => Some(ClientEvent::WaitDirection),
        CoordinatorPhase::SendTurnResult => Some(ClientEvent::SendTurnResult(TurnData::new(game))),
        CoordinatorPhase::SendState => Some(ClientEvent::SendClientGameState(StateData::new(game))),
        _ => None,
    }
}

} // verus!
