//! The tournament registry: players, their live instances, per-pair
//! match counters and scores, and the greedy matcher.
//!
//! A player is created on first join and lives forever; its dense index
//! is its id. Each live connection is an instance: a token with its
//! owner's id and a per-player serial number. A token sits either in
//! its owner's FIFO of available instances or inside one entry of the
//! running-match table — never in both, and never in two places, which
//! the well-formedness invariant [`wf`] pins down. The matcher moves
//! tokens from the FIFOs into the table; completing a match moves the
//! surviving tokens back and settles the score. The caller runs the
//! actual game between the two instances a launch names.

use crate::game::Outcome;
use crate::score::{spec_status_zero, Score, Status};
use crate::text::{push_dec, str_eq};
use vstd::prelude::*;

verus! {

/// One live connection of a player: the owner's id, the serial number
/// that distinguishes it from the owner's other instances, and a
/// display name.
pub struct Instance {
    pub owner: usize,
    pub seq: u32,
    pub name: String,
}

impl Instance {
    /// Make a token for the given owner and serial number.
    pub fn new(id: usize, seq: u32, name: String) -> (r: Instance)
        ensures
            r.owner == id,
            r.seq == seq,
            r.name@ == name@,
    {
        Instance { owner: id, seq, name }
    }

    /// The owning player's id.
    pub fn id(&self) -> (r: usize)
        ensures
            r == self.owner,
    {
        self.owner
    }

    /// The serial number within the owner's instances.
    pub fn seq(&self) -> (r: u32)
        ensures
            r == self.seq,
    {
        self.seq
    }

    /// The display name.
    pub fn name(&self) -> (r: &str)
        ensures
            r@ == self.name@,
    {
        self.name.as_str()
    }
}

/// One registered player.
pub struct Player {
    id: usize,
    name: String,
    instances: Vec<Instance>,
    status: Vec<Status>,
    total_instance_count: u32,
}

/// One match in progress, holding both borrowed instance tokens.
struct RunningMatch {
    home: usize,
    away: usize,
    home_instance: Instance,
    away_instance: Instance,
}

/// The registry.
pub struct Tournament {
    players: Vec<Player>,
    running: Vec<RunningMatch>,
}

/// Mathematical shape of a player: the name, the serial numbers of the
/// available instances in FIFO order, the per-opponent status, and how
/// many instances were ever created.
#[verifier::ext_equal]
pub struct PlayerView {
    pub name: Seq<char>,
    pub instances: Seq<u32>,
    pub status: Seq<Status>,
    pub total: u32,
}

/// Mathematical shape of a running match.
#[verifier::ext_equal]
pub struct RunningView {
    pub home: int,
    pub away: int,
    pub home_seq: u32,
    pub away_seq: u32,
}

/// Mathematical shape of the registry.
#[verifier::ext_equal]
pub struct TournamentView {
    pub players: Seq<PlayerView>,
    pub running: Seq<RunningView>,
}

impl View for Player {
    type V = PlayerView;

    closed spec fn view(&self) -> PlayerView {
        PlayerView {
            name: self.name@,
            instances: self.instances@.map_values(|t: Instance| t.seq),
            status: self.status@,
            total: self.total_instance_count,
        }
    }
}

impl View for Tournament {
    type V = TournamentView;

    closed spec fn view(&self) -> TournamentView {
        TournamentView {
            players: self.players@.map_values(|p: Player| p@),
            running: self.running@.map_values(
                |m: RunningMatch| RunningView {
                    home: m.home as int,
                    away: m.away as int,
                    home_seq: m.home_instance.seq,
                    away_seq: m.away_instance.seq,
                },
            ),
        }
    }
}

/// The status of the ordered pair (home, away); all zero when the pair
/// was never touched.
pub open spec fn status_of(v: TournamentView, h: int, a: int) -> Status {
    if 0 <= h < v.players.len() && 0 <= a < v.players[h].status.len() {
        v.players[h].status[a]
    } else {
        spec_status_zero()
    }
}

/// Some player carries this name.
pub open spec fn has_player(v: TournamentView, name: Seq<char>) -> bool {
    exists|i: int| 0 <= i < v.players.len() && v.players[i].name == name
}

/// The id of the player with this name; meaningful under
/// [`has_player`], and unique under [`wf`].
pub open spec fn lookup(v: TournamentView, name: Seq<char>) -> int {
    choose|i: int| 0 <= i < v.players.len() && v.players[i].name == name
}

/// How many running matches pair home `h` with away `a`.
pub open spec fn count_pair(rs: Seq<RunningView>, h: int, a: int) -> int
    decreases rs.len(),
{
    if rs.len() == 0 {
        0
    } else {
        count_pair(rs.drop_last(), h, a) + if rs.last().home == h && rs.last().away == a {
            1int
        } else {
            0int
        }
    }
}

/// Total queued count of one player's status row.
pub open spec fn row_queued_sum(s: Seq<Status>) -> int
    decreases s.len(),
{
    if s.len() == 0 {
        0
    } else {
        row_queued_sum(s.drop_last()) + s.last().queued
    }
}

/// Total queued count over a list of players.
pub open spec fn players_queued_sum(ps: Seq<PlayerView>) -> int
    decreases ps.len(),
{
    if ps.len() == 0 {
        0
    } else {
        players_queued_sum(ps.drop_last()) + row_queued_sum(ps.last().status)
    }
}

/// Total number of games still owed across the registry.
pub open spec fn sum_queued(v: TournamentView) -> int {
    players_queued_sum(v.players)
}

/// Games owed plus games in flight: enqueue raises it, a launch keeps
/// it, only a completion lowers it.
pub open spec fn games_outstanding(v: TournamentView) -> int {
    sum_queued(v) + v.running.len()
}

/// Games owed plus games in flight for one ordered pair: the matcher
/// never changes it, it only turns owed games into running ones.
pub open spec fn pair_outstanding(v: TournamentView, h: int, a: int) -> int {
    status_of(v, h, a).queued + status_of(v, h, a).running
}

/// The matcher can start a game of home `h` against away `a`: a game is
/// owed, the sides differ, and both have an instance free.
pub open spec fn runnable(v: TournamentView, h: int, a: int) -> bool {
    &&& 0 <= h < v.players.len()
    &&& 0 <= a < v.players.len()
    &&& h != a
    &&& status_of(v, h, a).queued > 0
    &&& status_of(v, h, a).running < u32::MAX
    &&& v.players[h].instances.len() > 0
    &&& v.players[a].instances.len() > 0
}

/// No pair can be started: every owed pair lacks a free instance on
/// one side.
pub open spec fn no_runnable(v: TournamentView) -> bool {
    forall|h: int, a: int| !runnable(v, h, a)
}

/// Registered names are pairwise distinct.
pub open spec fn wf_names(v: TournamentView) -> bool {
    forall|i: int, j: int|
        0 <= i < j < v.players.len() ==> (#[trigger] v.players[i].name) != (
        #[trigger] v.players[j].name)
}

/// Status rows index opponents, and no player has games against itself.
pub open spec fn wf_status(v: TournamentView) -> bool {
    &&& forall|i: int|
        0 <= i < v.players.len() ==> (#[trigger] v.players[i].status.len()) <= v.players.len()
    &&& forall|i: int|
        0 <= i < v.players.len() ==> #[trigger] status_of(v, i, i) == spec_status_zero()
}

/// Every token in a FIFO has a serial number the owner has issued, and
/// no FIFO holds one serial number twice.
pub open spec fn wf_deques(v: TournamentView) -> bool {
    &&& forall|i: int, k: int|
        0 <= i < v.players.len() && 0 <= k < v.players[i].instances.len() ==> (
        #[trigger] v.players[i].instances[k]) < v.players[i].total
    &&& forall|i: int, k1: int, k2: int|
        0 <= i < v.players.len() && 0 <= k1 < k2 < v.players[i].instances.len() ==> (
        #[trigger] v.players[i].instances[k1]) != (#[trigger] v.players[i].instances[k2])
}

/// Every running match pairs two different registered players and holds
/// issued serial numbers.
pub open spec fn wf_running_entries(v: TournamentView) -> bool {
    forall|j: int|
        0 <= j < v.running.len() ==> {
            let m = #[trigger] v.running[j];
            &&& 0 <= m.home < v.players.len()
            &&& 0 <= m.away < v.players.len()
            &&& m.home != m.away
            &&& m.home_seq < v.players[m.home].total
            &&& m.away_seq < v.players[m.away].total
        }
}

/// No instance sits both in a FIFO and in the running table.
pub open spec fn wf_deque_running_disjoint(v: TournamentView) -> bool {
    forall|i: int, k: int, j: int|
        0 <= i < v.players.len() && 0 <= k < v.players[i].instances.len() && 0 <= j
            < v.running.len() ==> {
            let s = #[trigger] v.players[i].instances[k];
            let m = #[trigger] v.running[j];
            &&& (m.home == i ==> s != m.home_seq)
            &&& (m.away == i ==> s != m.away_seq)
        }
}

/// No instance sits in two entries of the running table.
pub open spec fn wf_running_distinct(v: TournamentView) -> bool {
    forall|j1: int, j2: int|
        0 <= j1 < v.running.len() && 0 <= j2 < v.running.len() && j1 != j2 ==> {
            let m1 = #[trigger] v.running[j1];
            let m2 = #[trigger] v.running[j2];
            &&& (m1.home == m2.home ==> m1.home_seq != m2.home_seq)
            &&& (m1.home == m2.away ==> m1.home_seq != m2.away_seq)
            &&& (m1.away == m2.home ==> m1.away_seq != m2.home_seq)
            &&& (m1.away == m2.away ==> m1.away_seq != m2.away_seq)
        }
}

/// The `running` counter of every pair equals the number of running
/// matches of that pair.
pub open spec fn wf_counts(v: TournamentView) -> bool {
    forall|h: int, a: int|
        0 <= h < v.players.len() && 0 <= a < v.players.len() ==> (#[trigger] status_of(
            v,
            h,
            a,
        )).running == count_pair(v.running, h, a)
}

/// The registry invariant.
pub open spec fn wf(v: TournamentView) -> bool {
    &&& wf_names(v)
    &&& wf_status(v)
    &&& wf_deques(v)
    &&& wf_running_entries(v)
    &&& wf_deque_running_disjoint(v)
    &&& wf_running_distinct(v)
    &&& wf_counts(v)
}

/// A status row extended with zero entries so that index `a` exists.
pub open spec fn grown_row(s: Seq<Status>, a: int) -> Seq<Status> {
    if a < s.len() {
        s
    } else {
        s + Seq::new((a + 1 - s.len()) as nat, |k: int| spec_status_zero())
    }
}

/// The pairs `(opponent, queued)` of a status row with games owed.
pub open spec fn queued_pairs(s: Seq<Status>) -> Seq<(usize, u32)>
    decreases s.len(),
{
    if s.len() == 0 {
        Seq::empty()
    } else if s.last().queued > 0 {
        queued_pairs(s.drop_last()).push(((s.len() - 1) as usize, s.last().queued))
    } else {
        queued_pairs(s.drop_last())
    }
}

impl Player {
    /// The dense id this player was registered under.
    pub closed spec fn spec_id(&self) -> usize {
        self.id
    }

    /// A fresh player with no instances and no opponents.
    pub fn new(id: usize, name: String) -> (r: Player)
        ensures
            r@.name == name@,
            r@.instances =~= Seq::<u32>::empty(),
            r@.status =~= Seq::<Status>::empty(),
            r@.total == 0,
            r.spec_id() == id,
    {
        let r = Player {
            id,
            name,
            instances: Vec::new(),
            status: Vec::new(),
            total_instance_count: 0,
        };
        proof {
            assert(r@.instances =~= Seq::<u32>::empty());
        }
        r
    }

    /// Add a fresh instance at the back of the FIFO; its serial number
    /// is returned and the display name is `<player>:<serial>`.
    pub fn create_instance(&mut self) -> (r: u32)
        requires
            old(self)@.total < u32::MAX,
        ensures
            r == old(self)@.total,
            final(self)@.name == old(self)@.name,
            final(self)@.status == old(self)@.status,
            final(self)@.total == old(self)@.total + 1,
            final(self)@.instances =~= old(self)@.instances.push(old(self)@.total),
            final(self).spec_id() == old(self).spec_id(),
    {
        let seq = self.total_instance_count;
        let mut display = self.name.clone();
        display.append(":");
        push_dec(&mut display, seq);
        let instance = Instance { owner: self.id, seq, name: display };
        self.instances.push(instance);
        self.total_instance_count = self.total_instance_count + 1;
        proof {
            assert(final(self)@.instances =~= old(self)@.instances.push(seq));
        }
        seq
    }

    /// Owe `count` more games with this player as red against `away`.
    pub fn enqueue(&mut self, away: usize, count: u32)
        requires
            away != old(self).spec_id(),
            away < old(self)@.status.len() ==> old(self)@.status[away as int].queued + count
                <= u32::MAX,
        ensures
            final(self)@.name == old(self)@.name,
            final(self)@.instances == old(self)@.instances,
            final(self)@.total == old(self)@.total,
            final(self).spec_id() == old(self).spec_id(),
            final(self)@.status =~= grown_row(old(self)@.status, away as int).update(
                away as int,
                Status {
                    score: status_row_at(old(self)@.status, away as int).score,
                    queued: (status_row_at(old(self)@.status, away as int).queued + count) as u32,
                    running: status_row_at(old(self)@.status, away as int).running,
                },
            ),
    {
        self.add_queued_row(away, count);
    }

    /// The same, without the self-pairing guard: the registry checks it
    /// before committing.
    fn add_queued_row(&mut self, away: usize, count: u32)
        requires
            away < old(self)@.status.len() ==> old(self)@.status[away as int].queued + count
                <= u32::MAX,
        ensures
            final(self)@.name == old(self)@.name,
            final(self)@.instances == old(self)@.instances,
            final(self)@.total == old(self)@.total,
            final(self).spec_id() == old(self).spec_id(),
            final(self)@.status =~= grown_row(old(self)@.status, away as int).update(
                away as int,
                Status {
                    score: status_row_at(old(self)@.status, away as int).score,
                    queued: (status_row_at(old(self)@.status, away as int).queued + count) as u32,
                    running: status_row_at(old(self)@.status, away as int).running,
                },
            ),
    {
        proof {
            assert(grown_row(old(self)@.status, away as int).len() == if away < old(
                self,
            )@.status.len() {
                old(self)@.status.len() as int
            } else {
                away + 1
            });
        }
        while self.status.len() <= away
            invariant
                self@.status =~= grown_row(old(self)@.status, away as int).take(
                    self@.status.len() as int,
                ),
                self@.status.len() >= old(self)@.status.len(),
                self@.status.len() <= grown_row(old(self)@.status, away as int).len(),
                self@.name == old(self)@.name,
                self@.instances == old(self)@.instances,
                self@.total == old(self)@.total,
                self.spec_id() == old(self).spec_id(),
            decreases away - self@.status.len() + 1,
        {
            self.status.push(Status::new());
            proof {
                assert(self@.status =~= grown_row(old(self)@.status, away as int).take(
                    self@.status.len() as int,
                ));
            }
        }
        proof {
            assert(self@.status =~= grown_row(old(self)@.status, away as int));
            assert(self@.status[away as int] == status_row_at(old(self)@.status, away as int));
        }
        let q = self.status[away].queued;
        let entry = self.status[away];
        self.status.set(
            away,
            Status { score: entry.score, queued: q + count, running: entry.running },
        );
    }

    /// Every opponent with games owed, with the owed count.
    pub fn iter_queued(&self) -> (r: Vec<(usize, u32)>)
        ensures
            r@ == queued_pairs(self@.status),
    {
        let mut out: Vec<(usize, u32)> = Vec::new();
        let mut i: usize = 0;
        while i < self.status.len()
            invariant
                0 <= i <= self@.status.len(),
                self@.status.len() == self.status@.len(),
                out@ == queued_pairs(self@.status.take(i as int)),
            decreases self@.status.len() - i,
        {
            proof {
                assert(self@.status.take(i + 1 as int).drop_last() =~= self@.status.take(i as int));
                assert(self@.status.take(i + 1 as int).last() == self@.status[i as int]);
            }
            if self.status[i].queued > 0 {
                out.push((i, self.status[i].queued));
            }
            i = i + 1;
        }
        proof {
            assert(self@.status.take(self@.status.len() as int) =~= self@.status);
        }
        out
    }

    /// Every opponent this player has a status entry for.
    pub fn iter_status(&self) -> (r: Vec<(usize, Status)>)
        ensures
            r@.len() == self@.status.len(),
            forall|k: int| 0 <= k < r@.len() ==> (#[trigger] r@[k]) == (
                k as usize,
                self@.status[k],
            ),
    {
        let mut out: Vec<(usize, Status)> = Vec::new();
        let mut i: usize = 0;
        while i < self.status.len()
            invariant
                0 <= i <= self@.status.len(),
                self@.status.len() == self.status@.len(),
                out@.len() == i,
                forall|k: int| 0 <= k < i ==> (#[trigger] out@[k]) == (
                    k as usize,
                    self@.status[k],
                ),
            decreases self@.status.len() - i,
        {
            out.push((i, self.status[i]));
            i = i + 1;
        }
        out
    }
}

/// The entry of a status row at `a`, zero when the row is shorter.
pub open spec fn status_row_at(s: Seq<Status>, a: int) -> Status {
    if 0 <= a < s.len() {
        s[a]
    } else {
        spec_status_zero()
    }
}

/// Row sums are non-negative and bound each entry.
proof fn lemma_row_sum_bounds(s: Seq<Status>)
    ensures
        row_queued_sum(s) >= 0,
        forall|a: int| 0 <= a < s.len() ==> (#[trigger] s[a]).queued <= row_queued_sum(s),
    decreases s.len(),
{
    if s.len() > 0 {
        lemma_row_sum_bounds(s.drop_last());
        assert forall|a: int| 0 <= a < s.len() implies (#[trigger] s[a]).queued <= row_queued_sum(
            s,
        ) by {
            if a < s.len() - 1 {
                assert(s.drop_last()[a] == s[a]);
            }
        }
    }
}

/// Player sums are non-negative and bound each player's row sum.
proof fn lemma_players_sum_bounds(ps: Seq<PlayerView>)
    ensures
        players_queued_sum(ps) >= 0,
        forall|i: int|
            0 <= i < ps.len() ==> row_queued_sum((#[trigger] ps[i]).status) <= players_queued_sum(
                ps,
            ),
    decreases ps.len(),
{
    if ps.len() > 0 {
        lemma_players_sum_bounds(ps.drop_last());
        lemma_row_sum_bounds(ps.last().status);
        assert forall|i: int|
            0 <= i < ps.len() implies row_queued_sum((#[trigger] ps[i]).status)
            <= players_queued_sum(ps) by {
            if i < ps.len() - 1 {
                assert(ps.drop_last()[i] == ps[i]);
            }
        }
    }
}

/// Every pair's queued count is at most the registry total.
proof fn lemma_entry_le_sum(v: TournamentView, h: int, a: int)
    ensures
        status_of(v, h, a).queued <= sum_queued(v),
        sum_queued(v) >= 0,
{
    lemma_players_sum_bounds(v.players);
    if 0 <= h < v.players.len() && 0 <= a < v.players[h].status.len() {
        lemma_row_sum_bounds(v.players[h].status);
    }
}

/// With nothing owed anywhere, nothing can be started.
proof fn lemma_zero_sum_no_runnable(v: TournamentView)
    requires
        sum_queued(v) == 0,
    ensures
        no_runnable(v),
{
    assert forall|h: int, a: int| !runnable(v, h, a) by {
        lemma_entry_le_sum(v, h, a);
    }
}

/// Updating one row entry shifts the row sum by the difference.
proof fn lemma_row_sum_update(s: Seq<Status>, a: int, st: Status)
    requires
        0 <= a < s.len(),
    ensures
        row_queued_sum(s.update(a, st)) == row_queued_sum(s) - s[a].queued + st.queued,
    decreases s.len(),
{
    let s2 = s.update(a, st);
    if a == s.len() - 1 {
        assert(s2.drop_last() =~= s.drop_last());
        assert(s2.last() == st);
    } else {
        assert(s2.drop_last() =~= s.drop_last().update(a, st));
        assert(s2.last() == s.last());
        lemma_row_sum_update(s.drop_last(), a, st);
    }
}

/// Appending entries with nothing owed keeps the row sum.
proof fn lemma_row_sum_grow(s: Seq<Status>, a: int)
    ensures
        row_queued_sum(grown_row(s, a)) == row_queued_sum(s),
    decreases a - s.len() + 1,
{
    if a >= s.len() {
        let g = grown_row(s, a);
        if a == s.len() {
            assert(g.drop_last() =~= s);
            assert(g.last().queued == 0);
        } else {
            assert(g.drop_last() =~= grown_row(s, a - 1));
            assert(g.last().queued == 0);
            lemma_row_sum_grow(s, a - 1);
        }
    }
}

/// Updating one player shifts the total by the change in that player's
/// row sum.
proof fn lemma_players_sum_update(ps: Seq<PlayerView>, i: int, p: PlayerView)
    requires
        0 <= i < ps.len(),
    ensures
        players_queued_sum(ps.update(i, p)) == players_queued_sum(ps) - row_queued_sum(
            ps[i].status,
        ) + row_queued_sum(p.status),
    decreases ps.len(),
{
    let ps2 = ps.update(i, p);
    if i == ps.len() - 1 {
        assert(ps2.drop_last() =~= ps.drop_last());
        assert(ps2.last() == p);
    } else {
        assert(ps2.drop_last() =~= ps.drop_last().update(i, p));
        assert(ps2.last() == ps.last());
        lemma_players_sum_update(ps.drop_last(), i, p);
    }
}

/// A new player with an empty row does not change the total.
proof fn lemma_players_sum_push(ps: Seq<PlayerView>, p: PlayerView)
    ensures
        players_queued_sum(ps.push(p)) == players_queued_sum(ps) + row_queued_sum(p.status),
{
    assert(ps.push(p).drop_last() =~= ps);
    assert(ps.push(p).last() == p);
}

/// Appending a running entry raises its pair's count by one and keeps
/// the others.
proof fn lemma_count_pair_push(rs: Seq<RunningView>, m: RunningView, h: int, a: int)
    ensures
        count_pair(rs.push(m), h, a) == count_pair(rs, h, a) + if m.home == h && m.away == a {
            1int
        } else {
            0int
        },
{
    assert(rs.push(m).drop_last() =~= rs);
    assert(rs.push(m).last() == m);
}

/// Removing a running entry lowers its pair's count by one and keeps
/// the others.
proof fn lemma_count_pair_remove(rs: Seq<RunningView>, j: int, h: int, a: int)
    requires
        0 <= j < rs.len(),
    ensures
        count_pair(rs.remove(j), h, a) == count_pair(rs, h, a) - if rs[j].home == h && rs[j].away
            == a {
            1int
        } else {
            0int
        },
    decreases rs.len(),
{
    let rs2 = rs.remove(j);
    if j == rs.len() - 1 {
        assert(rs2 =~= rs.drop_last());
    } else {
        assert(rs2.drop_last() =~= rs.drop_last().remove(j));
        assert(rs2.last() == rs.last());
        lemma_count_pair_remove(rs.drop_last(), j, h, a);
        assert(rs.drop_last()[j] == rs[j]);
    }
}

/// Pair counts are never negative.
proof fn lemma_count_pair_nonneg(rs: Seq<RunningView>, h: int, a: int)
    ensures
        count_pair(rs, h, a) >= 0,
    decreases rs.len(),
{
    if rs.len() > 0 {
        lemma_count_pair_nonneg(rs.drop_last(), h, a);
    }
}

/// Under distinct names, the looked-up id is the one carrying the name.
pub proof fn lemma_lookup_unique(v: TournamentView, name: Seq<char>, i: int)
    requires
        wf_names(v),
        0 <= i < v.players.len(),
        v.players[i].name == name,
    ensures
        has_player(v, name),
        lookup(v, name) == i,
{
    assert(has_player(v, name));
    let j = lookup(v, name);
    if j != i {
        if j < i {
            assert(v.players[j].name != v.players[i].name);
        } else {
            assert(v.players[i].name != v.players[j].name);
        }
    }
}

/// A pair no entry carries has count zero.
proof fn lemma_count_pair_zero(rs: Seq<RunningView>, h: int, a: int)
    requires
        forall|j: int| 0 <= j < rs.len() ==> !((#[trigger] rs[j]).home == h && rs[j].away == a),
    ensures
        count_pair(rs, h, a) == 0,
    decreases rs.len(),
{
    if rs.len() > 0 {
        assert(rs[rs.len() - 1] == rs.last());
        lemma_count_pair_zero(rs.drop_last(), h, a);
    }
}

/// An entry of the table makes its pair's count positive.
proof fn lemma_count_pair_at(rs: Seq<RunningView>, j: int)
    requires
        0 <= j < rs.len(),
    ensures
        count_pair(rs, rs[j].home, rs[j].away) >= 1,
{
    lemma_count_pair_remove(rs, j, rs[j].home, rs[j].away);
    lemma_count_pair_nonneg(rs.remove(j), rs[j].home, rs[j].away);
}

/// What a join hands back: the player's id, the new instance's serial
/// number, and the games the matcher started on the spot.
pub struct JoinOutcome {
    pub player: usize,
    pub instance_seq: u32,
    pub launches: Vec<LaunchInfo>,
}

/// A join can proceed: a known player must not have exhausted its
/// serial numbers.
pub open spec fn join_allowed(v: TournamentView, name: Seq<char>) -> bool {
    has_player(v, name) ==> v.players[lookup(v, name)].total < u32::MAX
}

/// The id a join resolves the name to.
pub open spec fn registered_id(v: TournamentView, name: Seq<char>) -> int {
    if has_player(v, name) {
        lookup(v, name)
    } else {
        v.players.len() as int
    }
}

/// The serial number a join gives the new instance.
pub open spec fn registered_seq(v: TournamentView, name: Seq<char>) -> u32 {
    if has_player(v, name) {
        v.players[lookup(v, name)].total
    } else {
        0
    }
}

/// The registry right after a join's registration step, before the
/// matcher runs: the resolved player gained one instance at the back of
/// its FIFO; an unknown name gained a fresh player as well.
pub open spec fn register_spec(v: TournamentView, name: Seq<char>) -> TournamentView {
    if has_player(v, name) {
        let i = lookup(v, name);
        TournamentView {
            players: v.players.update(
                i,
                PlayerView {
                    name: v.players[i].name,
                    instances: v.players[i].instances.push(v.players[i].total),
                    status: v.players[i].status,
                    total: (v.players[i].total + 1) as u32,
                },
            ),
            running: v.running,
        }
    } else {
        TournamentView {
            players: v.players.push(
                PlayerView { name, instances: seq![0u32], status: Seq::empty(), total: 1 },
            ),
            running: v.running,
        }
    }
}

/// Registration preserves the registry invariant.
proof fn lemma_register_wf(vo: TournamentView, vn: TournamentView, name: Seq<char>)
    requires
        wf(vo),
        join_allowed(vo, name),
        vn =~~= register_spec(vo, name),
    ensures
        wf(vn),
{
    let n = vo.players.len() as int;
    if has_player(vo, name) {
        let i = lookup(vo, name);
        assert(0 <= i < n && vo.players[i].name == name);
        assert(vn.players.len() == n);
        assert(forall|x: int| 0 <= x < n ==> (#[trigger] vn.players[x]).name == vo.players[x].name);
        assert(forall|x: int|
            0 <= x < n ==> (#[trigger] vn.players[x]).status == vo.players[x].status);
        assert(forall|x: int|
            0 <= x < n && x != i ==> (#[trigger] vn.players[x]).instances
                == vo.players[x].instances);
        assert(vn.players[i].instances =~= vo.players[i].instances.push(vo.players[i].total));
        assert(wf_names(vn));
        assert(wf_status(vn)) by {
            assert(forall|x: int|
                0 <= x < n ==> #[trigger] status_of(vn, x, x) == status_of(vo, x, x));
        }
        assert(wf_deques(vn)) by {
            assert forall|x: int, k: int|
                0 <= x < n && 0 <= k < vn.players[x].instances.len() implies (
            #[trigger] vn.players[x].instances[k]) < vn.players[x].total by {
                if x == i && k < vo.players[i].instances.len() {
                    assert(vn.players[x].instances[k] == vo.players[i].instances[k]);
                }
            }
            assert forall|x: int, k1: int, k2: int|
                0 <= x < n && 0 <= k1 < k2 < vn.players[x].instances.len() implies (
            #[trigger] vn.players[x].instances[k1]) != (#[trigger] vn.players[x].instances[k2]) by {
                if x == i {
                    assert(vn.players[x].instances[k1] == vo.players[i].instances[k1]);
                    if k2 < vo.players[i].instances.len() {
                        assert(vn.players[x].instances[k2] == vo.players[i].instances[k2]);
                    } else {
                        assert(vn.players[x].instances[k2] == vo.players[i].total);
                    }
                }
            }
        }
        assert(wf_running_entries(vn)) by {
            assert(forall|j: int|
                0 <= j < vn.running.len() ==> #[trigger] vn.running[j] == vo.running[j]);
            assert(forall|x: int|
                0 <= x < n ==> (#[trigger] vn.players[x]).total >= vo.players[x].total);
        }
        assert(wf_deque_running_disjoint(vn)) by {
            assert forall|x: int, k: int, j: int|
                0 <= x < n && 0 <= k < vn.players[x].instances.len() && 0 <= j
                    < vn.running.len() implies {
                let s = #[trigger] vn.players[x].instances[k];
                let mm = #[trigger] vn.running[j];
                &&& (mm.home == x ==> s != mm.home_seq)
                &&& (mm.away == x ==> s != mm.away_seq)
            } by {
                assert(vn.running[j] == vo.running[j]);
                if x == i && k == vo.players[i].instances.len() {
                    // The new token's serial number was never issued.
                    assert(vn.players[x].instances[k] == vo.players[i].total);
                } else if x == i {
                    assert(vn.players[x].instances[k] == vo.players[i].instances[k]);
                }
            }
        }
        assert(wf_running_distinct(vn)) by {
            assert(forall|j: int|
                0 <= j < vn.running.len() ==> #[trigger] vn.running[j] == vo.running[j]);
        }
        assert(wf_counts(vn)) by {
            assert(vn.running =~= vo.running);
            assert forall|x: int, y: int| 0 <= x < n && 0 <= y < n implies (#[trigger] status_of(
                vn,
                x,
                y,
            )).running == count_pair(vn.running, x, y) by {
                assert(status_of(vn, x, y) == status_of(vo, x, y));
            }
        }
    } else {
        let p = PlayerView { name, instances: seq![0u32], status: Seq::empty(), total: 1 };
        assert(vn.players.len() == n + 1);
        assert(forall|x: int| 0 <= x < n ==> (#[trigger] vn.players[x]) == vo.players[x]);
        assert(vn.players[n] == p);
        assert(wf_names(vn)) by {
            assert(forall|x: int| 0 <= x < n ==> (#[trigger] vo.players[x]).name != name);
        }
        assert(wf_status(vn)) by {
            assert forall|x: int| 0 <= x < n + 1 implies #[trigger] status_of(vn, x, x)
                == spec_status_zero() by {
                if x < n {
                    assert(status_of(vn, x, x) == status_of(vo, x, x));
                }
            }
        }
        assert(wf_deques(vn));
        assert(wf_running_entries(vn)) by {
            assert(forall|j: int|
                0 <= j < vn.running.len() ==> #[trigger] vn.running[j] == vo.running[j]);
        }
        assert(wf_deque_running_disjoint(vn)) by {
            assert forall|x: int, k: int, j: int|
                0 <= x < n + 1 && 0 <= k < vn.players[x].instances.len() && 0 <= j
                    < vn.running.len() implies {
                let s = #[trigger] vn.players[x].instances[k];
                let mm = #[trigger] vn.running[j];
                &&& (mm.home == x ==> s != mm.home_seq)
                &&& (mm.away == x ==> s != mm.away_seq)
            } by {
                assert(vn.running[j] == vo.running[j]);
                assert(vo.running[j].home < n && vo.running[j].away < n);
            }
        }
        assert(wf_running_distinct(vn)) by {
            assert(forall|j: int|
                0 <= j < vn.running.len() ==> #[trigger] vn.running[j] == vo.running[j]);
        }
        assert(wf_counts(vn)) by {
            assert(vn.running =~= vo.running);
            assert forall|x: int, y: int| 0 <= x < n + 1 && 0 <= y < n + 1 implies (
            #[trigger] status_of(vn, x, y)).running == count_pair(vn.running, x, y) by {
                if x < n && y < n {
                    assert(status_of(vn, x, y) == status_of(vo, x, y));
                } else {
                    assert(status_of(vn, x, y) == spec_status_zero());
                    lemma_count_pair_zero(vn.running, x, y);
                }
            }
        }
    }
}

/// Registration changes no status entry and nothing in flight.
proof fn lemma_register_preserves(vo: TournamentView, vn: TournamentView, name: Seq<char>)
    requires
        vn =~~= register_spec(vo, name),
    ensures
        vn.running == vo.running,
        sum_queued(vn) == sum_queued(vo),
        forall|x: int, y: int| #[trigger] status_of(vn, x, y) == status_of(vo, x, y),
{
    if has_player(vo, name) {
        let i = lookup(vo, name);
        lemma_players_sum_update(vo.players, i, vn.players[i]);
        assert(vn.players[i].status == vo.players[i].status);
        assert forall|x: int, y: int| #[trigger] status_of(vn, x, y) == status_of(vo, x, y) by {
            if 0 <= x < vo.players.len() {
                assert(vn.players[x].status == vo.players[x].status);
            }
        }
    } else {
        lemma_players_sum_push(
            vo.players,
            PlayerView { name, instances: seq![0u32], status: Seq::empty(), total: 1 },
        );
        assert forall|x: int, y: int| #[trigger] status_of(vn, x, y) == status_of(vo, x, y) by {
            if 0 <= x < vo.players.len() {
                assert(vn.players[x].status == vo.players[x].status);
            } else if x == vo.players.len() {
                assert(vn.players[x].status.len() == 0);
            }
        }
    }
}

/// Some running match has this home player and home instance.
pub open spec fn has_running(v: TournamentView, home: int, home_seq: u32) -> bool {
    exists|j: int|
        0 <= j < v.running.len() && v.running[j].home == home && v.running[j].home_seq == home_seq
}

/// The index of the running match with this home player and home
/// instance; meaningful under [`has_running`], unique under [`wf`].
pub open spec fn running_index(v: TournamentView, home: int, home_seq: u32) -> int {
    choose|j: int|
        0 <= j < v.running.len() && v.running[j].home == home && v.running[j].home_seq == home_seq
}

/// The away player of the running match with this home instance.
pub open spec fn match_away(v: TournamentView, home: int, home_seq: u32) -> int {
    v.running[running_index(v, home, home_seq)].away
}

/// Under the invariant, a home player and a home instance identify at
/// most one running match.
pub proof fn lemma_running_index_unique(v: TournamentView, home: int, home_seq: u32, j: int)
    requires
        wf_running_distinct(v),
        0 <= j < v.running.len(),
        v.running[j].home == home,
        v.running[j].home_seq == home_seq,
    ensures
        has_running(v, home, home_seq),
        running_index(v, home, home_seq) == j,
{
    assert(has_running(v, home, home_seq));
    let j2 = running_index(v, home, home_seq);
    if j2 != j {
        assert(v.running[j].home_seq != v.running[j2].home_seq);
    }
}

/// The merged score of the ended game fits the counters.
pub open spec fn score_fits(v: TournamentView, home: int, home_seq: u32, outcome: Outcome) -> bool {
    let sc = status_of(v, home, match_away(v, home, home_seq)).score;
    let d = crate::score::spec_from_outcome(outcome);
    &&& sc.win + d.win <= u32::MAX
    &&& sc.loss + d.loss <= u32::MAX
    &&& sc.draw + d.draw <= u32::MAX
}

/// The home side of a pair after its game ended: the score takes the
/// outcome, one running game is gone, and the instance returns to the
/// back of the FIFO when it survived.
pub open spec fn completed_home(
    p: PlayerView,
    a: int,
    outcome: Outcome,
    survives: bool,
    seqno: u32,
) -> PlayerView {
    PlayerView {
        name: p.name,
        instances: if survives {
            p.instances.push(seqno)
        } else {
            p.instances
        },
        status: p.status.update(
            a,
            Status {
                score: crate::score::spec_merge_score(
                    p.status[a].score,
                    crate::score::spec_from_outcome(outcome),
                ),
                queued: p.status[a].queued,
                running: (p.status[a].running - 1) as u32,
            },
        ),
        total: p.total,
    }
}

/// The away side of a pair after its game ended: only the instance
/// returns, when it survived.
pub open spec fn completed_away(p: PlayerView, survives: bool, seqno: u32) -> PlayerView {
    PlayerView {
        name: p.name,
        instances: if survives {
            p.instances.push(seqno)
        } else {
            p.instances
        },
        status: p.status,
        total: p.total,
    }
}

/// Settling a finished game preserves the registry invariant.
proof fn lemma_complete_wf(
    vo: TournamentView,
    vn: TournamentView,
    j: int,
    outcome: Outcome,
    home_survives: bool,
    away_survives: bool,
)
    requires
        wf(vo),
        0 <= j < vo.running.len(),
        score_fits(vo, vo.running[j].home, vo.running[j].home_seq, outcome),
        vn.players =~~= vo.players.update(
            vo.running[j].home,
            completed_home(
                vo.players[vo.running[j].home],
                vo.running[j].away,
                outcome,
                home_survives,
                vo.running[j].home_seq,
            ),
        ).update(
            vo.running[j].away,
            completed_away(vo.players[vo.running[j].away], away_survives, vo.running[j].away_seq),
        ),
        vn.running =~= vo.running.remove(j),
    ensures
        wf(vn),
{
    let n = vo.players.len() as int;
    let h = vo.running[j].home;
    let a = vo.running[j].away;
    let m = vo.running[j];
    assert(0 <= h < n && 0 <= a < n && h != a);
    lemma_count_pair_at(vo.running, j);
    assert(count_pair(vo.running, h, a) >= 1);
    assert(status_of(vo, h, a).running >= 1);
    assert(0 <= a < vo.players[h].status.len());
    // How the parts relate to the old state.
    assert(vn.players.len() == n);
    assert(forall|x: int| 0 <= x < n ==> (#[trigger] vn.players[x]).name == vo.players[x].name);
    assert(forall|x: int| 0 <= x < n ==> (#[trigger] vn.players[x]).total == vo.players[x].total);
    assert(forall|x: int|
        0 <= x < n && x != h && x != a ==> (#[trigger] vn.players[x]).instances
            == vo.players[x].instances);
    assert(forall|x: int|
        0 <= x < n && x != h ==> (#[trigger] vn.players[x]).status == vo.players[x].status);
    assert(forall|x: int|
        0 <= x < vn.running.len() ==> #[trigger] vn.running[x] == (if x < j {
            vo.running[x]
        } else {
            vo.running[x + 1]
        }));
    assert(wf_names(vn));
    assert(wf_status(vn)) by {
        assert forall|x: int| 0 <= x < n implies #[trigger] status_of(vn, x, x)
            == spec_status_zero() by {
            assert(status_of(vn, x, x) == status_of(vo, x, x));
        }
    }
    assert(wf_deques(vn)) by {
        assert forall|x: int, k: int|
            0 <= x < n && 0 <= k < vn.players[x].instances.len() implies (
        #[trigger] vn.players[x].instances[k]) < vn.players[x].total by {
            if (x == h && home_survives && k == vo.players[h].instances.len()) || (x == a
                && away_survives && k == vo.players[a].instances.len()) {
            } else {
                assert(vn.players[x].instances[k] == vo.players[x].instances[k]);
            }
        }
        assert forall|x: int, k1: int, k2: int|
            0 <= x < n && 0 <= k1 < k2 < vn.players[x].instances.len() implies (
        #[trigger] vn.players[x].instances[k1]) != (#[trigger] vn.players[x].instances[k2]) by {
            assert(vn.players[x].instances[k1] == vo.players[x].instances[k1]);
            if (x == h && home_survives && k2 == vo.players[h].instances.len()) || (x == a
                && away_survives && k2 == vo.players[a].instances.len()) {
                // The returned token was in the running table, so no
                // deque held it.
            } else {
                assert(vn.players[x].instances[k2] == vo.players[x].instances[k2]);
            }
        }
    }
    assert(wf_running_entries(vn));
    assert(wf_deque_running_disjoint(vn)) by {
        assert forall|x: int, k: int, j2: int|
            0 <= x < n && 0 <= k < vn.players[x].instances.len() && 0 <= j2
                < vn.running.len() implies {
            let s = #[trigger] vn.players[x].instances[k];
            let mm = #[trigger] vn.running[j2];
            &&& (mm.home == x ==> s != mm.home_seq)
            &&& (mm.away == x ==> s != mm.away_seq)
        } by {
            let jo = if j2 < j {
                j2
            } else {
                j2 + 1
            };
            assert(vn.running[j2] == vo.running[jo]);
            assert(jo != j);
            if (x == h && home_survives && k == vo.players[h].instances.len()) || (x == a
                && away_survives && k == vo.players[a].instances.len()) {
                // A returned token differs from every other running
                // entry's tokens by running-table distinctness.
            } else {
                assert(vn.players[x].instances[k] == vo.players[x].instances[k]);
            }
        }
    }
    assert(wf_running_distinct(vn)) by {
        assert forall|j1: int, j2: int|
            0 <= j1 < vn.running.len() && 0 <= j2 < vn.running.len() && j1 != j2 implies {
            let m1 = #[trigger] vn.running[j1];
            let m2 = #[trigger] vn.running[j2];
            &&& (m1.home == m2.home ==> m1.home_seq != m2.home_seq)
            &&& (m1.home == m2.away ==> m1.home_seq != m2.away_seq)
            &&& (m1.away == m2.home ==> m1.away_seq != m2.home_seq)
            &&& (m1.away == m2.away ==> m1.away_seq != m2.away_seq)
        } by {
            let o1 = if j1 < j {
                j1
            } else {
                j1 + 1
            };
            let o2 = if j2 < j {
                j2
            } else {
                j2 + 1
            };
            assert(vn.running[j1] == vo.running[o1]);
            assert(vn.running[j2] == vo.running[o2]);
        }
    }
    assert(wf_counts(vn)) by {
        assert forall|x: int, y: int| 0 <= x < n && 0 <= y < n implies (#[trigger] status_of(
            vn,
            x,
            y,
        )).running == count_pair(vn.running, x, y) by {
            lemma_count_pair_remove(vo.running, j, x, y);
            if x == h && y == a {
                assert(status_of(vn, x, y).running == status_of(vo, x, y).running - 1);
            } else {
                assert(status_of(vn, x, y) == status_of(vo, x, y));
                assert(!(vo.running[j].home == x && vo.running[j].away == y));
            }
        }
    }
}

/// A name occurs in a list of names.
pub open spec fn name_in(ns: Seq<Seq<char>>, n: Seq<char>) -> bool {
    exists|i: int| 0 <= i < ns.len() && ns[i] == n
}

/// The views of a list of names.
pub open spec fn names_views(ns: Seq<String>) -> Seq<Seq<char>> {
    ns.map_values(|s: String| s@)
}

/// The views of a list of pending entries.
pub open spec fn pending_views(ps: Seq<(String, bool, u32)>) -> Seq<(Seq<char>, bool, u32)> {
    ps.map_values(|e: (String, bool, u32)| (e.0@, e.1, e.2))
}

/// Sum of the counts of the first `k` pending entries.
pub open spec fn pending_total_upto(ps: Seq<(Seq<char>, bool, u32)>, k: int) -> int
    decreases k,
{
    if k <= 0 {
        0
    } else {
        pending_total_upto(ps, k - 1) + ps[k - 1].2
    }
}

/// Sum of all the pending counts.
pub open spec fn pending_total(ps: Seq<(Seq<char>, bool, u32)>) -> int {
    pending_total_upto(ps, ps.len() as int)
}

/// Whether one pending entry commits: the opponent is registered, not
/// excluded, not the player itself, and the count is positive.
pub open spec fn commit_cond(
    v0: TournamentView,
    player: int,
    entry: (Seq<char>, bool, u32),
    except: Seq<Seq<char>>,
) -> bool {
    &&& has_player(v0, entry.0)
    &&& !name_in(except, entry.0)
    &&& lookup(v0, entry.0) != player
    &&& entry.2 > 0
}

/// The ordered pair a pending entry commits to: the player is red when
/// the flag says so, else the opponent is.
pub open spec fn commit_pair(v0: TournamentView, player: int, entry: (Seq<char>, bool, u32)) -> (
    int,
    int,
) {
    if entry.1 {
        (player, lookup(v0, entry.0))
    } else {
        (lookup(v0, entry.0), player)
    }
}

/// A player with `count` more games owed against `a`.
pub open spec fn enqueued_player(p: PlayerView, a: int, count: u32) -> PlayerView {
    PlayerView {
        name: p.name,
        instances: p.instances,
        status: grown_row(p.status, a).update(
            a,
            Status {
                score: status_row_at(p.status, a).score,
                queued: (status_row_at(p.status, a).queued + count) as u32,
                running: status_row_at(p.status, a).running,
            },
        ),
        total: p.total,
    }
}

/// The registry after committing the first `k` pending entries, with
/// names resolved against the initial state `v0`.
pub open spec fn commit_upto(
    v0: TournamentView,
    player: int,
    ps: Seq<(Seq<char>, bool, u32)>,
    except: Seq<Seq<char>>,
    k: int,
) -> TournamentView
    decreases k,
{
    if k <= 0 {
        v0
    } else {
        let prev = commit_upto(v0, player, ps, except, k - 1);
        if commit_cond(v0, player, ps[k - 1], except) {
            let (h, a) = commit_pair(v0, player, ps[k - 1]);
            TournamentView {
                players: prev.players.update(h, enqueued_player(prev.players[h], a, ps[k - 1].2)),
                running: prev.running,
            }
        } else {
            prev
        }
    }
}

/// How many games the first `k` pending entries add in total.
pub open spec fn committed_sum(
    v0: TournamentView,
    player: int,
    ps: Seq<(Seq<char>, bool, u32)>,
    except: Seq<Seq<char>>,
    k: int,
) -> int
    decreases k,
{
    if k <= 0 {
        0
    } else {
        committed_sum(v0, player, ps, except, k - 1) + if commit_cond(v0, player, ps[k - 1], except) {
            ps[k - 1].2 as int
        } else {
            0
        }
    }
}

/// Prefix pending sums grow with the prefix and bound the commit sums.
proof fn lemma_pending_sums(
    v0: TournamentView,
    player: int,
    ps: Seq<(Seq<char>, bool, u32)>,
    except: Seq<Seq<char>>,
    k: int,
)
    requires
        0 <= k <= ps.len(),
    ensures
        0 <= committed_sum(v0, player, ps, except, k) <= pending_total_upto(ps, k) <= pending_total(
            ps,
        ),
    decreases ps.len() - k,
{
    if k == ps.len() {
        lemma_pending_upto_nonneg(v0, player, ps, except, k);
    } else {
        lemma_pending_sums(v0, player, ps, except, k + 1);
        lemma_pending_upto_nonneg(v0, player, ps, except, k);
    }
}

/// Commit sums are non-negative and below the prefix pending sums.
proof fn lemma_pending_upto_nonneg(
    v0: TournamentView,
    player: int,
    ps: Seq<(Seq<char>, bool, u32)>,
    except: Seq<Seq<char>>,
    k: int,
)
    requires
        0 <= k,
    ensures
        0 <= committed_sum(v0, player, ps, except, k) <= pending_total_upto(ps, k),
    decreases k,
{
    if k > 0 {
        lemma_pending_upto_nonneg(v0, player, ps, except, k - 1);
    }
}

/// Committing one entry preserves the invariant, adds its count to the
/// games owed, and touches nothing else.
proof fn lemma_commit_step_wf(v: TournamentView, vn: TournamentView, h: int, a: int, count: u32)
    requires
        wf(v),
        0 <= h < v.players.len(),
        0 <= a < v.players.len(),
        h != a,
        status_of(v, h, a).queued + count <= u32::MAX,
        vn.players =~~= v.players.update(h, enqueued_player(v.players[h], a, count)),
        vn.running =~= v.running,
    ensures
        wf(vn),
        sum_queued(vn) == sum_queued(v) + count,
        forall|x: int, y: int|
            (#[trigger] status_of(vn, x, y)).score == status_of(v, x, y).score && status_of(
                vn,
                x,
                y,
            ).running == status_of(v, x, y).running,
        forall|x: int, y: int|
            !(x == h && y == a) ==> (#[trigger] status_of(vn, x, y)).queued == status_of(
                v,
                x,
                y,
            ).queued,
        status_of(vn, h, a).queued == status_of(v, h, a).queued + count,
{
    let n = v.players.len() as int;
    let row = v.players[h].status;
    let grown = grown_row(row, a);
    assert(grown.len() == if a < row.len() {
        row.len() as int
    } else {
        a + 1
    });
    assert(forall|y: int| 0 <= y < row.len() ==> grown[y] == row[y]);
    assert(forall|y: int|
        row.len() <= y < grown.len() ==> #[trigger] grown[y] == spec_status_zero());
    assert(forall|y: int| 0 <= y < grown.len() ==> #[trigger] grown[y] == status_row_at(row, y));
    assert(vn.players.len() == n);
    assert(forall|x: int| 0 <= x < n ==> (#[trigger] vn.players[x]).name == v.players[x].name);
    assert(forall|x: int| 0 <= x < n ==> (#[trigger] vn.players[x]).total == v.players[x].total);
    assert(forall|x: int|
        0 <= x < n ==> (#[trigger] vn.players[x]).instances == v.players[x].instances);
    assert(forall|x: int| 0 <= x < n && x != h ==> (#[trigger] vn.players[x]).status == v.players[x].status);
    assert forall|x: int, y: int| true implies (#[trigger] status_of(vn, x, y)).score == status_of(
        v,
        x,
        y,
    ).score && status_of(vn, x, y).running == status_of(v, x, y).running && (!(x == h && y == a)
        ==> status_of(vn, x, y).queued == status_of(v, x, y).queued) by {
        if 0 <= x < n && x == h && 0 <= y < vn.players[x].status.len() {
            assert(vn.players[x].status[y] == if y == a {
                Status {
                    score: status_row_at(row, a).score,
                    queued: (status_row_at(row, a).queued + count) as u32,
                    running: status_row_at(row, a).running,
                }
            } else {
                status_row_at(row, y)
            });
        }
    }
    assert(status_of(vn, h, a).queued == status_of(v, h, a).queued + count);
    assert(wf_names(vn));
    assert(wf_status(vn)) by {
        assert(forall|x: int|
            0 <= x < n ==> (#[trigger] vn.players[x].status.len()) <= v.players.len());
        assert forall|x: int| 0 <= x < n implies #[trigger] status_of(vn, x, x)
            == spec_status_zero() by {
            assert(status_of(vn, x, x).score == status_of(v, x, x).score);
            assert(status_of(vn, x, x).queued == status_of(v, x, x).queued);
            assert(status_of(vn, x, x).running == status_of(v, x, x).running);
        }
    }
    assert(wf_deques(vn));
    assert(wf_running_entries(vn)) by {
        assert(forall|j: int|
            0 <= j < vn.running.len() ==> #[trigger] vn.running[j] == v.running[j]);
    }
    assert(wf_deque_running_disjoint(vn)) by {
        assert(forall|j: int|
            0 <= j < vn.running.len() ==> #[trigger] vn.running[j] == v.running[j]);
    }
    assert(wf_running_distinct(vn)) by {
        assert(forall|j: int|
            0 <= j < vn.running.len() ==> #[trigger] vn.running[j] == v.running[j]);
    }
    assert(wf_counts(vn)) by {
        assert(vn.running =~= v.running);
        assert forall|x: int, y: int| 0 <= x < n && 0 <= y < n implies (#[trigger] status_of(
            vn,
            x,
            y,
        )).running == count_pair(vn.running, x, y) by {
            assert(status_of(vn, x, y).running == status_of(v, x, y).running);
        }
    }
    // The row sum grew by exactly the committed count.
    lemma_row_sum_grow(row, a);
    lemma_row_sum_update(
        grown,
        a,
        Status {
            score: status_row_at(row, a).score,
            queued: (status_row_at(row, a).queued + count) as u32,
            running: status_row_at(row, a).running,
        },
    );
    assert(grown[a] == status_row_at(row, a));
    lemma_players_sum_update(v.players, h, vn.players[h]);
}

/// Identifies one started game to its caller: the pair and the serial
/// numbers of the two instances playing it.
#[derive(Clone, Copy, PartialEq, Eq, Structural, Debug)]
pub struct LaunchInfo {
    pub home: usize,
    pub away: usize,
    pub home_seq: u32,
    pub away_seq: u32,
}

/// The home side of a pair after a launch: front instance gone, one
/// owed game now running.
pub open spec fn launched_home(p: PlayerView, a: int) -> PlayerView {
    PlayerView {
        name: p.name,
        instances: p.instances.drop_first(),
        status: p.status.update(
            a,
            Status {
                score: p.status[a].score,
                queued: (p.status[a].queued - 1) as u32,
                running: (p.status[a].running + 1) as u32,
            },
        ),
        total: p.total,
    }
}

/// The away side of a pair after a launch: only its front instance is
/// taken.
pub open spec fn launched_away(p: PlayerView) -> PlayerView {
    PlayerView { name: p.name, instances: p.instances.drop_first(), status: p.status, total: p.total }
}

/// A launch preserves the registry invariant.
proof fn lemma_launch_wf(vo: TournamentView, vn: TournamentView, h: int, a: int)
    requires
        wf(vo),
        runnable(vo, h, a),
        vn.players =~~= vo.players.update(h, launched_home(vo.players[h], a)).update(
            a,
            launched_away(vo.players[a]),
        ),
        vn.running =~= vo.running.push(
            RunningView {
                home: h,
                away: a,
                home_seq: vo.players[h].instances[0],
                away_seq: vo.players[a].instances[0],
            },
        ),
    ensures
        wf(vn),
{
    let n = vo.players.len() as int;
    let m = RunningView {
        home: h,
        away: a,
        home_seq: vo.players[h].instances[0],
        away_seq: vo.players[a].instances[0],
    };
    assert(status_of(vo, h, a).queued > 0);
    assert(a < vo.players[h].status.len());
    assert(vn.players.len() == n);
    // How each player's parts relate to the old state.
    assert(forall|i: int| 0 <= i < n ==> (#[trigger] vn.players[i]).name == vo.players[i].name);
    assert(forall|i: int|
        0 <= i < n ==> (#[trigger] vn.players[i]).total == vo.players[i].total);
    assert(forall|i: int|
        0 <= i < n && i != h && i != a ==> (#[trigger] vn.players[i]).instances
            == vo.players[i].instances);
    assert(forall|i: int|
        0 <= i < n && i != h ==> (#[trigger] vn.players[i]).status == vo.players[i].status);
    assert(vn.players[h].instances =~= vo.players[h].instances.drop_first());
    assert(vn.players[a].instances =~= vo.players[a].instances.drop_first());
    assert(vn.players[h].status =~= vo.players[h].status.update(
        a,
        Status {
            score: vo.players[h].status[a].score,
            queued: (vo.players[h].status[a].queued - 1) as u32,
            running: (vo.players[h].status[a].running + 1) as u32,
        },
    ));
    // Deque entries are a subset of the old deques, shifted at h and a.
    assert(forall|i: int, k: int|
        0 <= i < n && 0 <= k < vn.players[i].instances.len() && i != h && i != a ==> (
        #[trigger] vn.players[i].instances[k]) == vo.players[i].instances[k]);
    assert(forall|k: int|
        0 <= k < vn.players[h].instances.len() ==> (#[trigger] vn.players[h].instances[k])
            == vo.players[h].instances[k + 1]);
    assert(forall|k: int|
        0 <= k < vn.players[a].instances.len() ==> (#[trigger] vn.players[a].instances[k])
            == vo.players[a].instances[k + 1]);
    assert(wf_names(vn));
    assert(wf_status(vn)) by {
        assert(forall|i: int|
            0 <= i < n ==> (#[trigger] vn.players[i].status.len()) == vo.players[i].status.len());
        assert(forall|i: int|
            0 <= i < n ==> #[trigger] status_of(vn, i, i) == status_of(vo, i, i));
    }
    assert(wf_deques(vn));
    assert(wf_running_entries(vn)) by {
        assert(forall|j: int|
            0 <= j < vo.running.len() ==> #[trigger] vn.running[j] == vo.running[j]);
        assert(vn.running[vo.running.len() as int] == m);
        assert(m.home_seq < vo.players[h].total);
        assert(m.away_seq < vo.players[a].total);
    }
    assert(wf_deque_running_disjoint(vn)) by {
        assert forall|i: int, k: int, j: int|
            0 <= i < n && 0 <= k < vn.players[i].instances.len() && 0 <= j
                < vn.running.len() implies {
            let s = #[trigger] vn.players[i].instances[k];
            let mm = #[trigger] vn.running[j];
            &&& (mm.home == i ==> s != mm.home_seq)
            &&& (mm.away == i ==> s != mm.away_seq)
        } by {
            if j < vo.running.len() {
                // Old entry against a possibly shifted deque token.
                if i == h {
                    assert(vn.players[i].instances[k] == vo.players[h].instances[k + 1]);
                } else if i == a {
                    assert(vn.players[i].instances[k] == vo.players[a].instances[k + 1]);
                }
            } else {
                // The new entry holds the two old deque fronts, which
                // the new deques no longer hold.
                assert(vn.running[j] == m);
                if i == h {
                    assert(vn.players[i].instances[k] == vo.players[h].instances[k + 1]);
                    assert(vo.players[h].instances[k + 1] != vo.players[h].instances[0]);
                }
                if i == a {
                    assert(vn.players[i].instances[k] == vo.players[a].instances[k + 1]);
                    assert(vo.players[a].instances[k + 1] != vo.players[a].instances[0]);
                }
            }
        }
    }
    assert(wf_running_distinct(vn)) by {
        assert forall|j1: int, j2: int|
            0 <= j1 < vn.running.len() && 0 <= j2 < vn.running.len() && j1 != j2 implies {
            let m1 = #[trigger] vn.running[j1];
            let m2 = #[trigger] vn.running[j2];
            &&& (m1.home == m2.home ==> m1.home_seq != m2.home_seq)
            &&& (m1.home == m2.away ==> m1.home_seq != m2.away_seq)
            &&& (m1.away == m2.home ==> m1.away_seq != m2.home_seq)
            &&& (m1.away == m2.away ==> m1.away_seq != m2.away_seq)
        } by {
            if j1 < vo.running.len() && j2 < vo.running.len() {
                assert(vn.running[j1] == vo.running[j1]);
                assert(vn.running[j2] == vo.running[j2]);
            } else {
                // One of the entries is the new one; its tokens were at
                // the front of the deques, which no running entry held.
                let jo = if j1 < vo.running.len() {
                    j1
                } else {
                    j2
                };
                assert(vn.running[jo] == vo.running[jo]);
                assert(vo.players[h].instances[0] == vo.players[h].instances[0]);
            }
        }
    }
    assert(wf_counts(vn)) by {
        assert forall|x: int, y: int| 0 <= x < n && 0 <= y < n implies (#[trigger] status_of(
            vn,
            x,
            y,
        )).running == count_pair(vn.running, x, y) by {
            lemma_count_pair_push(vo.running, m, x, y);
            if x == h && y == a {
                assert(status_of(vn, x, y).running == status_of(vo, x, y).running + 1);
            } else {
                assert(status_of(vn, x, y) == status_of(vo, x, y));
            }
        }
    }
}

impl Tournament {
    /// An empty registry.
    pub fn new() -> (r: Tournament)
        ensures
            r@.players.len() == 0,
            r@.running.len() == 0,
            wf(r@),
            sum_queued(r@) == 0,
    {
        let r = Tournament { players: Vec::new(), running: Vec::new() };
        proof {
            assert(r@.players =~= Seq::<PlayerView>::empty());
            assert(r@.running =~= Seq::<RunningView>::empty());
        }
        r
    }

    /// How many players are registered.
    pub fn num_players(&self) -> (r: usize)
        ensures
            r == self@.players.len(),
    {
        self.players.len()
    }

    /// The name of a player.
    pub fn player_name(&self, id: usize) -> (r: Option<String>)
        ensures
            id < self@.players.len() ==> r is Some && r->0@ == self@.players[id as int].name,
            id >= self@.players.len() ==> r is None,
    {
        if id < self.players.len() {
            proof {
                assert(self@.players[id as int] == self.players@[id as int]@);
            }
            Some(self.players[id].name.clone())
        } else {
            None
        }
    }

    /// How many instances of a player are free right now.
    pub fn instances_available(&self, id: usize) -> (r: usize)
        ensures
            id < self@.players.len() ==> r == self@.players[id as int].instances.len(),
            id >= self@.players.len() ==> r == 0,
    {
        if id < self.players.len() {
            proof {
                assert(self@.players[id as int] == self.players@[id as int]@);
            }
            self.players[id].instances.len()
        } else {
            0
        }
    }

    /// How many instances a player has ever been handed.
    pub fn instances_created(&self, id: usize) -> (r: u32)
        ensures
            id < self@.players.len() ==> r == self@.players[id as int].total,
            id >= self@.players.len() ==> r == 0,
    {
        if id < self.players.len() {
            proof {
                assert(self@.players[id as int] == self.players@[id as int]@);
            }
            self.players[id].total_instance_count
        } else {
            0
        }
    }

    /// How many matches are in flight across the registry.
    pub fn running_total(&self) -> (r: usize)
        ensures
            r == self@.running.len(),
    {
        self.running.len()
    }

    /// The raw status of the ordered pair (home, away); all zero for an
    /// untouched or out-of-range pair.
    pub fn pair_status(&self, home: usize, away: usize) -> (r: Status)
        ensures
            r == status_of(self@, home as int, away as int),
    {
        if home < self.players.len() {
            proof {
                assert(self@.players[home as int] == self.players@[home as int]@);
            }
            if away < self.players[home].status.len() {
                self.players[home].status[away]
            } else {
                Status::new()
            }
        } else {
            Status::new()
        }
    }

    /// Start one game of `home` against `away`: take the front instance
    /// of each side, move one owed game to running, and record the
    /// match. The caller drives the game and reports back through
    /// [`Tournament::complete`].
    fn launch(&mut self, home: usize, away: usize) -> (r: LaunchInfo)
        requires
            wf(old(self)@),
            runnable(old(self)@, home as int, away as int),
        ensures
            wf(final(self)@),
            r.home == home && r.away == away,
            r.home_seq == old(self)@.players[home as int].instances[0],
            r.away_seq == old(self)@.players[away as int].instances[0],
            final(self)@.players =~~= old(self)@.players.update(
                home as int,
                launched_home(old(self)@.players[home as int], away as int),
            ).update(away as int, launched_away(old(self)@.players[away as int])),
            final(self)@.running =~= old(self)@.running.push(
                RunningView {
                    home: home as int,
                    away: away as int,
                    home_seq: old(self)@.players[home as int].instances[0],
                    away_seq: old(self)@.players[away as int].instances[0],
                },
            ),
            sum_queued(final(self)@) == sum_queued(old(self)@) - 1,
            games_outstanding(final(self)@) == games_outstanding(old(self)@),
    {
        let ghost vo = old(self)@;
        proof {
            assert(status_of(vo, home as int, away as int).queued > 0);
            assert(away < vo.players[home as int].status.len());
            assert(vo.players[home as int] == self.players@[home as int]@);
            assert(vo.players[away as int] == self.players@[away as int]@);
        }
        let mut hp = self.players.remove(home);
        proof {
            assert(hp@ == vo.players[home as int]);
        }
        let home_tok = hp.instances.remove(0);
        let st = hp.status[away];
        hp.status.set(
            away,
            Status { score: st.score, queued: st.queued - 1, running: st.running + 1 },
        );
        proof {
            assert(hp@.instances =~= vo.players[home as int].instances.drop_first());
            assert(hp@.status =~= vo.players[home as int].status.update(
                away as int,
                Status {
                    score: vo.players[home as int].status[away as int].score,
                    queued: (vo.players[home as int].status[away as int].queued - 1) as u32,
                    running: (vo.players[home as int].status[away as int].running + 1) as u32,
                },
            ));
            assert(hp@ =~~= launched_home(vo.players[home as int], away as int));
        }
        self.players.insert(home, hp);
        proof {
            assert(self.players@.map_values(|p: Player| p@) =~~= vo.players.update(
                home as int,
                launched_home(vo.players[home as int], away as int),
            ));
        }
        let ghost vmid = self.players@.map_values(|p: Player| p@);
        let mut ap = self.players.remove(away);
        proof {
            assert(ap@ == vmid[away as int]);
            assert(vmid[away as int] == vo.players[away as int]);
        }
        let away_tok = ap.instances.remove(0);
        proof {
            assert(ap@.instances =~= vo.players[away as int].instances.drop_first());
            assert(ap@ =~~= launched_away(vo.players[away as int]));
        }
        self.players.insert(away, ap);
        proof {
            assert(self.players@.map_values(|p: Player| p@) =~~= vmid.update(
                away as int,
                launched_away(vo.players[away as int]),
            ));
            assert(self.players@.map_values(|p: Player| p@) =~~= vo.players.update(
                home as int,
                launched_home(vo.players[home as int], away as int),
            ).update(away as int, launched_away(vo.players[away as int])));
        }
        let r = LaunchInfo { home, away, home_seq: home_tok.seq, away_seq: away_tok.seq };
        self.running.push(
            RunningMatch { home, away, home_instance: home_tok, away_instance: away_tok },
        );
        proof {
            let vn = self@;
            let m = RunningView {
                home: home as int,
                away: away as int,
                home_seq: vo.players[home as int].instances[0],
                away_seq: vo.players[away as int].instances[0],
            };
            assert(vn.running =~= vo.running.push(m));
            lemma_launch_wf(vo, vn, home as int, away as int);
            // The one owed game became a running one.
            lemma_row_sum_update(
                vo.players[home as int].status,
                away as int,
                launched_home(vo.players[home as int], away as int).status[away as int],
            );
            lemma_players_sum_update(
                vo.players,
                home as int,
                launched_home(vo.players[home as int], away as int),
            );
            lemma_players_sum_update(
                vo.players.update(
                    home as int,
                    launched_home(vo.players[home as int], away as int),
                ),
                away as int,
                launched_away(vo.players[away as int]),
            );
        }
        r
    }

    /// The named player's report: for every other player, the pair's
    /// status seen from this player merged with the mirror image of the
    /// opponent's own entry, in id order.
    pub fn status(&self, name: &str) -> (r: Option<Vec<(String, Status)>>)
        requires
            wf(self@),
            has_player(self@, name@) ==> merged_fits(self@, lookup(self@, name@)),
        ensures
            match r {
                Some(list) => {
                    let id = lookup(self@, name@);
                    &&& has_player(self@, name@)
                    &&& list@.len() == self@.players.len() - 1
                    &&& forall|k: int|
                        0 <= k < list@.len() ==> {
                            let other = if k < id {
                                k
                            } else {
                                k + 1
                            };
                            let m = merged_status(self@, id, other);
                            (#[trigger] list@[k]).0@ == self@.players[other].name && list@[k].1
                                == (Status {
                                score: Score {
                                    win: m.win as u32,
                                    loss: m.loss as u32,
                                    draw: m.draw as u32,
                                },
                                queued: m.queued as u32,
                                running: m.running as u32,
                            })
                        }
                },
                None => !has_player(self@, name@),
            },
    {
        let found = self.find_player(name);
        let id = match found {
            Some(id) => id,
            None => {
                return None;
            },
        };
        proof {
            lemma_lookup_unique(self@, name@, id as int);
        }
        let n = self.num_players();
        let mut list: Vec<(String, Status)> = Vec::new();
        let mut o: usize = 0;
        while o < n
            invariant
                n == self@.players.len(),
                0 <= o <= n,
                id < n,
                lookup(self@, name@) == id,
                merged_fits(self@, id as int),
                has_player(self@, name@),
                list@.len() == (if o <= id {
                    o as int
                } else {
                    o - 1
                }),
                forall|k: int|
                    0 <= k < list@.len() ==> {
                        let other = if k < id {
                            k
                        } else {
                            k + 1
                        };
                        let m = merged_status(self@, id as int, other);
                        (#[trigger] list@[k]).0@ == self@.players[other].name && list@[k].1 == (
                        Status {
                            score: Score {
                                win: m.win as u32,
                                loss: m.loss as u32,
                                draw: m.draw as u32,
                            },
                            queued: m.queued as u32,
                            running: m.running as u32,
                        })
                    },
            decreases n - o,
        {
            if o != id {
                let mine = self.pair_status(id, o);
                let mut theirs = self.pair_status(o, id);
                theirs.score.negate();
                let mut merged = mine;
                proof {
                    let m = merged_status(self@, id as int, o as int);
                    assert(m.win <= u32::MAX && m.loss <= u32::MAX && m.draw <= u32::MAX
                        && m.queued <= u32::MAX && m.running <= u32::MAX);
                }
                merged.merge(&theirs);
                let other_name = match self.player_name(o) {
                    Some(other_name) => other_name,
                    None => String::new(),
                };
                list.push((other_name, merged));
            }
            o = o + 1;
        }
        Some(list)
    }

    /// Whether the matcher can start a game of `home` against `away`
    /// right now.
    fn is_runnable(&self, home: usize, away: usize) -> (r: bool)
        ensures
            r == runnable(self@, home as int, away as int),
    {
        if home >= self.num_players() || away >= self.num_players() || home == away {
            return false;
        }
        let st = self.pair_status(home, away);
        st.queued > 0 && st.running < u32::MAX && self.instances_available(home) > 0
            && self.instances_available(away) > 0
    }

    /// The runnable pair with the most games owed, if any pair can be
    /// started; ties fall back to scan order.
    fn find_runnable(&self) -> (r: Option<(usize, usize)>)
        ensures
            match r {
                Some(pair) => runnable(self@, pair.0 as int, pair.1 as int),
                None => no_runnable(self@),
            },
    {
        let n = self.num_players();
        let mut best: Option<(usize, usize)> = None;
        let mut best_queued: u32 = 0;
        let mut h: usize = 0;
        while h < n
            invariant
                n == self@.players.len(),
                0 <= h <= n,
                match best {
                    Some(pair) => runnable(self@, pair.0 as int, pair.1 as int),
                    None => forall|x: int, y: int| 0 <= x < h ==> !runnable(self@, x, y),
                },
            decreases n - h,
        {
            let mut a: usize = 0;
            while a < n
                invariant
                    n == self@.players.len(),
                    0 <= h < n,
                    0 <= a <= n,
                    match best {
                        Some(pair) => runnable(self@, pair.0 as int, pair.1 as int),
                        None => (forall|x: int, y: int| 0 <= x < h ==> !runnable(self@, x, y))
                            && (forall|y: int| 0 <= y < a ==> !runnable(self@, h as int, y)),
                    },
                decreases n - a,
            {
                if self.is_runnable(h, a) {
                    let q = self.pair_status(h, a).queued;
                    if best.is_none() || q > best_queued {
                        best = Some((h, a));
                        best_queued = q;
                    }
                }
                a = a + 1;
            }
            proof {
                if best is None {
                    assert forall|x: int, y: int| 0 <= x < h + 1 implies !runnable(
                        self@,
                        x,
                        y,
                    ) by {
                        if x == h && !(0 <= y < n) {
                            assert(!runnable(self@, x, y));
                        }
                    }
                }
            }
            h = h + 1;
        }
        proof {
            if best is None {
                assert forall|x: int, y: int| !runnable(self@, x, y) by {
                    if !(0 <= x < n) {
                        assert(!runnable(self@, x, y));
                    }
                }
            }
        }
        best
    }

    /// Start every game that can be started: repeatedly pick the
    /// runnable pair with the most games owed and launch it, until no
    /// owed pair has a free instance on both sides. Games owed plus
    /// games in flight is unchanged; scores, names and instance totals
    /// are untouched; and when nothing was startable to begin with, the
    /// registry is exactly as it was.
    pub fn match_all(&mut self) -> (r: Vec<LaunchInfo>)
        requires
            wf(old(self)@),
        ensures
            wf(final(self)@),
            no_runnable(final(self)@),
            games_outstanding(final(self)@) == games_outstanding(old(self)@),
            final(self)@.players.len() == old(self)@.players.len(),
            forall|i: int|
                0 <= i < final(self)@.players.len() ==> (#[trigger] final(self)@.players[i]).name
                    == old(self)@.players[i].name,
            forall|i: int|
                0 <= i < final(self)@.players.len() ==> (#[trigger] final(self)@.players[i]).total
                    == old(self)@.players[i].total,
            forall|x: int, y: int|
                (#[trigger] status_of(final(self)@, x, y)).score == status_of(old(self)@, x, y).score,
            forall|x: int, y: int|
                #[trigger] pair_outstanding(final(self)@, x, y) == pair_outstanding(
                    old(self)@,
                    x,
                    y,
                ),
            final(self)@.running.len() == old(self)@.running.len() + r@.len(),
            final(self)@.running.subrange(0, old(self)@.running.len() as int) =~= old(self)@.running,
            no_runnable(old(self)@) ==> final(self)@ == old(self)@ && r@.len() == 0,
    {
        let ghost vo = self@;
        let mut launches: Vec<LaunchInfo> = Vec::new();
        proof {
            lemma_entry_le_sum(self@, 0, 0);
        }
        loop
            invariant
                vo == old(self)@,
                wf(self@),
                sum_queued(self@) >= 0,
                games_outstanding(self@) == games_outstanding(vo),
                self@.players.len() == vo.players.len(),
                forall|i: int|
                    0 <= i < self@.players.len() ==> (#[trigger] self@.players[i]).name
                        == vo.players[i].name,
                forall|i: int|
                    0 <= i < self@.players.len() ==> (#[trigger] self@.players[i]).total
                        == vo.players[i].total,
                forall|x: int, y: int|
                    (#[trigger] status_of(self@, x, y)).score == status_of(vo, x, y).score,
                forall|x: int, y: int|
                    #[trigger] pair_outstanding(self@, x, y) == pair_outstanding(vo, x, y),
                self@.running.len() == vo.running.len() + launches@.len(),
                self@.running.subrange(0, vo.running.len() as int) =~= vo.running,
                no_runnable(vo) ==> self@ == vo && launches@.len() == 0,
            decreases sum_queued(self@),
        {
            let candidate = self.find_runnable();
            match candidate {
                None => {
                    return launches;
                },
                Some((home, away)) => {
                    let ghost vpre = self@;
                    let info = self.launch(home, away);
                    launches.push(info);
                    proof {
                        lemma_entry_le_sum(self@, 0, 0);
                        assert(self@.running.subrange(0, vo.running.len() as int) =~= vpre
                            .running.subrange(0, vo.running.len() as int));
                        assert forall|x: int, y: int| (#[trigger] status_of(self@, x, y)).score
                            == status_of(vo, x, y).score by {
                            assert(status_of(self@, x, y).score == status_of(vpre, x, y).score);
                        }
                        assert forall|x: int, y: int| #[trigger] pair_outstanding(self@, x, y)
                            == pair_outstanding(vo, x, y) by {
                            assert(pair_outstanding(vpre, x, y) == pair_outstanding(vo, x, y));
                            if x == home && y == away {
                                assert(status_of(self@, x, y).queued == status_of(
                                    vpre,
                                    x,
                                    y,
                                ).queued - 1);
                                assert(status_of(self@, x, y).running == status_of(
                                    vpre,
                                    x,
                                    y,
                                ).running + 1);
                            } else {
                                assert(status_of(self@, x, y) == status_of(vpre, x, y));
                            }
                        }
                        if no_runnable(vo) {
                            assert(runnable(vpre, home as int, away as int));
                            assert(vpre == vo);
                            assert(false);
                        }
                    }
                },
            }
        }
    }

    /// Register one connection of the named player: find or create the
    /// player, hand it a fresh instance, and run the matcher. The new
    /// instance joins at the back of the FIFO; when nothing was owed
    /// anywhere, the registry changes by exactly that instance.
    pub fn join(&mut self, name: String) -> (r: JoinOutcome)
        requires
            wf(old(self)@),
            join_allowed(old(self)@, name@),
        ensures
            wf(final(self)@),
            no_runnable(final(self)@),
            r.player == registered_id(old(self)@, name@),
            r.instance_seq == registered_seq(old(self)@, name@),
            games_outstanding(final(self)@) == games_outstanding(old(self)@),
            final(self)@.players.len() == register_spec(old(self)@, name@).players.len(),
            forall|i: int|
                0 <= i < final(self)@.players.len() ==> (#[trigger] final(self)@.players[i]).name
                    == register_spec(old(self)@, name@).players[i].name,
            forall|x: int, y: int|
                (#[trigger] status_of(final(self)@, x, y)).score == status_of(old(self)@, x, y).score,
            forall|x: int, y: int|
                #[trigger] pair_outstanding(final(self)@, x, y) == pair_outstanding(
                    old(self)@,
                    x,
                    y,
                ),
            sum_queued(old(self)@) == 0 ==> final(self)@ =~~= register_spec(old(self)@, name@)
                && r.launches@.len() == 0,
    {
        let ghost vo = self@;
        let found = self.find_player(name.as_str());
        let (player, instance_seq) = match found {
            Some(i) => {
                proof {
                    lemma_lookup_unique(vo, name@, i as int);
                    assert(vo.players[i as int] == self.players@[i as int]@);
                }
                let mut p = self.players.remove(i);
                let seq = p.create_instance();
                self.players.insert(i, p);
                proof {
                    assert(self.players@.map_values(|p: Player| p@) =~~= register_spec(
                        vo,
                        name@,
                    ).players);
                }
                (i, seq)
            },
            None => {
                let id = self.players.len();
                let mut p = Player::new(id, name);
                let seq = p.create_instance();
                self.players.push(p);
                proof {
                    assert(p@.instances =~= seq![0u32]);
                    assert(self.players@.map_values(|p2: Player| p2@) =~~= register_spec(
                        vo,
                        name@,
                    ).players);
                }
                (id, seq)
            },
        };
        proof {
            assert(self@ =~~= register_spec(vo, name@));
            lemma_register_wf(vo, self@, name@);
            lemma_register_preserves(vo, self@, name@);
        }
        let ghost vmid = self@;
        let launches = self.match_all();
        proof {
            if sum_queued(vo) == 0 {
                assert(sum_queued(vmid) == 0);
                lemma_zero_sum_no_runnable(vmid);
            }
            assert forall|x: int, y: int| (#[trigger] status_of(final(self)@, x, y)).score
                == status_of(vo, x, y).score by {
                assert(status_of(final(self)@, x, y).score == status_of(vmid, x, y).score);
                assert(status_of(vmid, x, y).score == status_of(vo, x, y).score);
            }
            assert forall|x: int, y: int| #[trigger] pair_outstanding(final(self)@, x, y)
                == pair_outstanding(vo, x, y) by {
                assert(pair_outstanding(final(self)@, x, y) == pair_outstanding(vmid, x, y));
                assert(status_of(vmid, x, y) == status_of(vo, x, y));
            }
        }
        JoinOutcome { player, instance_seq, launches }
    }

    /// The index of the running entry of this home instance.
    fn find_running(&self, home: usize, home_seq: u32) -> (r: usize)
        requires
            has_running(self@, home as int, home_seq),
        ensures
            r < self@.running.len(),
            self@.running[r as int].home == home as int,
            self@.running[r as int].home_seq == home_seq,
    {
        let ghost vo = self@;
        let mut j: usize = 0;
        loop
            invariant
                vo == self@,
                has_running(vo, home as int, home_seq),
                0 <= j <= vo.running.len(),
                forall|x: int|
                    0 <= x < j ==> !((#[trigger] vo.running[x]).home == home
                        && vo.running[x].home_seq == home_seq),
            decreases vo.running.len() - j,
        {
            if j >= self.running.len() {
                proof {
                    let w = choose|x: int|
                        0 <= x < vo.running.len() && vo.running[x].home == home as int
                            && vo.running[x].home_seq == home_seq;
                    assert(false);
                }
            }
            proof {
                assert(vo.running[j as int] == RunningView {
                    home: self.running@[j as int].home as int,
                    away: self.running@[j as int].away as int,
                    home_seq: self.running@[j as int].home_instance.seq,
                    away_seq: self.running@[j as int].away_instance.seq,
                });
            }
            if self.running[j].home == home && self.running[j].home_instance.seq == home_seq {
                return j;
            }
            j = j + 1;
        }
    }

    /// Settle the game the driver ran for the match identified by its
    /// home player and home instance: merge the outcome into the home
    /// side's score, move the game out of running, return each
    /// surviving instance to the back of its owner's FIFO, drop the
    /// others, and run the matcher again.
    pub fn complete(
        &mut self,
        home: usize,
        home_seq: u32,
        outcome: Outcome,
        home_survives: bool,
        away_survives: bool,
    ) -> (r: Vec<LaunchInfo>)
        requires
            wf(old(self)@),
            has_running(old(self)@, home as int, home_seq),
            score_fits(old(self)@, home as int, home_seq, outcome),
        ensures
            wf(final(self)@),
            no_runnable(final(self)@),
            games_outstanding(final(self)@) == games_outstanding(old(self)@) - 1,
            final(self)@.players.len() == old(self)@.players.len(),
            forall|i: int|
                0 <= i < final(self)@.players.len() ==> (#[trigger] final(self)@.players[i]).name
                    == old(self)@.players[i].name,
            status_of(
                final(self)@,
                home as int,
                match_away(old(self)@, home as int, home_seq),
            ).score == crate::score::spec_merge_score(
                status_of(old(self)@, home as int, match_away(old(self)@, home as int, home_seq)).score,
                crate::score::spec_from_outcome(outcome),
            ),
            forall|x: int, y: int|
                !(x == home && y == match_away(old(self)@, home as int, home_seq)) ==> (
                #[trigger] status_of(final(self)@, x, y)).score == status_of(old(self)@, x, y).score,
            pair_outstanding(final(self)@, home as int, match_away(old(self)@, home as int, home_seq))
                == pair_outstanding(
                old(self)@,
                home as int,
                match_away(old(self)@, home as int, home_seq),
            ) - 1,
            forall|x: int, y: int|
                !(x == home && y == match_away(old(self)@, home as int, home_seq))
                    ==> #[trigger] pair_outstanding(final(self)@, x, y) == pair_outstanding(
                    old(self)@,
                    x,
                    y,
                ),
    {
        let ghost vo = self@;
        let j = self.find_running(home, home_seq);
        proof {
            lemma_running_index_unique(vo, home as int, home_seq, j as int);
        }
        let entry = self.running.remove(j);
        let away = entry.away;
        proof {
            assert(self@.running =~= vo.running.remove(j as int));
            lemma_count_pair_at(vo.running, j as int);
            assert(status_of(vo, home as int, away as int).running >= 1);
            assert((away as int) < vo.players[home as int].status.len());
            assert(vo.players[home as int] == self.players@[home as int]@);
        }
        // Merge the score, release the running slot, return the home
        // instance if it survived.
        let mut hp = self.players.remove(home);
        let st = hp.status[away];
        let mut sc = st.score;
        sc.merge(&Score::from_outcome(outcome));
        hp.status.set(away, Status { score: sc, queued: st.queued, running: st.running - 1 });
        if home_survives {
            hp.instances.push(entry.home_instance);
        }
        proof {
            assert(hp@ =~~= completed_home(
                vo.players[home as int],
                away as int,
                outcome,
                home_survives,
                home_seq,
            ));
        }
        self.players.insert(home, hp);
        let ghost vmid_players = self.players@.map_values(|p: Player| p@);
        // Return the away instance if it survived.
        let mut ap = self.players.remove(away);
        proof {
            assert(ap@ == vmid_players[away as int]);
            assert(vmid_players[away as int] == vo.players[away as int]);
        }
        if away_survives {
            ap.instances.push(entry.away_instance);
        }
        proof {
            assert(ap@ =~~= completed_away(vo.players[away as int], away_survives, entry.away_instance.seq));
        }
        self.players.insert(away, ap);
        proof {
            let vn = self@;
            assert(vn.players =~~= vo.players.update(
                home as int,
                completed_home(vo.players[home as int], away as int, outcome, home_survives, home_seq),
            ).update(away as int, completed_away(vo.players[away as int], away_survives, vo.running[j as int].away_seq)));
            lemma_complete_wf(vo, vn, j as int, outcome, home_survives, away_survives);
            // Only score and running changed; nothing owed moved.
            lemma_row_sum_update(
                vo.players[home as int].status,
                away as int,
                vn.players[home as int].status[away as int],
            );
            lemma_players_sum_update(vo.players, home as int, vn.players[home as int]);
            lemma_players_sum_update(
                vo.players.update(home as int, vn.players[home as int]),
                away as int,
                vn.players[away as int],
            );
            assert(sum_queued(vn) == sum_queued(vo));
        }
        let ghost vmid = self@;
        let launches = self.match_all();
        proof {
            let a = match_away(vo, home as int, home_seq);
            assert(a == away as int);
            assert(status_of(final(self)@, home as int, a).score == status_of(
                vmid,
                home as int,
                a,
            ).score);
            assert forall|x: int, y: int| !(x == home && y == a) implies (#[trigger] status_of(
                final(self)@,
                x,
                y,
            )).score == status_of(vo, x, y).score by {
                assert(status_of(final(self)@, x, y).score == status_of(vmid, x, y).score);
                assert(status_of(vmid, x, y).score == status_of(vo, x, y).score);
            }
            assert(pair_outstanding(vmid, home as int, a) == pair_outstanding(vo, home as int, a)
                - 1);
            assert(pair_outstanding(final(self)@, home as int, a) == pair_outstanding(
                vmid,
                home as int,
                a,
            ));
            assert forall|x: int, y: int| !(x == home && y == a)
                implies #[trigger] pair_outstanding(final(self)@, x, y) == pair_outstanding(
                vo,
                x,
                y,
            ) by {
                assert(pair_outstanding(final(self)@, x, y) == pair_outstanding(vmid, x, y));
                assert(status_of(vmid, x, y) == status_of(vo, x, y));
            }
        }
        launches
    }

    /// Owe `count` more games of home `h` against away `a`.
    fn add_queued(&mut self, h: usize, a: usize, count: u32)
        requires
            wf(old(self)@),
            h < old(self)@.players.len(),
            a < old(self)@.players.len(),
            h != a,
            status_of(old(self)@, h as int, a as int).queued + count <= u32::MAX,
        ensures
            wf(final(self)@),
            final(self)@.players =~~= old(self)@.players.update(
                h as int,
                enqueued_player(old(self)@.players[h as int], a as int, count),
            ),
            final(self)@.running == old(self)@.running,
            sum_queued(final(self)@) == sum_queued(old(self)@) + count,
            forall|x: int, y: int|
                (#[trigger] status_of(final(self)@, x, y)).score == status_of(old(self)@, x, y).score
                    && status_of(final(self)@, x, y).running == status_of(old(self)@, x, y).running,
            forall|x: int, y: int|
                !(x == h && y == a) ==> (#[trigger] status_of(final(self)@, x, y)).queued
                    == status_of(old(self)@, x, y).queued,
            status_of(final(self)@, h as int, a as int).queued == status_of(
                old(self)@,
                h as int,
                a as int,
            ).queued + count,
    {
        let ghost vo = self@;
        proof {
            assert(vo.players[h as int] == self.players@[h as int]@);
        }
        let mut hp = self.players.remove(h);
        hp.add_queued_row(a, count);
        proof {
            assert(hp@ =~~= enqueued_player(vo.players[h as int], a as int, count));
        }
        self.players.insert(h, hp);
        proof {
            assert(self@.players =~~= vo.players.update(
                h as int,
                enqueued_player(vo.players[h as int], a as int, count),
            ));
            assert(self@.running =~= vo.running);
            lemma_commit_step_wf(vo, self@, h as int, a as int, count);
        }
    }

    /// Open an enqueue builder for the named player, if registered.
    pub fn enqueue(&self, name: &str) -> (r: Option<Queue>)
        ensures
            match r {
                Some(q) => has_player(self@, name@) && q.spec_player()
                    < self@.players.len() && self@.players[q.spec_player() as int].name == name@
                    && q.spec_pending().len() == 0 && q.spec_except().len() == 0,
                None => !has_player(self@, name@),
            },
    {
        match self.find_player(name) {
            Some(id) => Some(Queue { player: id, pending: Vec::new(), except: Vec::new() }),
            None => None,
        }
    }

    /// The id of the player with this name, if registered.
    pub fn find_player(&self, name: &str) -> (r: Option<usize>)
        ensures
            match r {
                Some(i) => i < self@.players.len() && self@.players[i as int].name == name@,
                None => !has_player(self@, name@),
            },
    {
        let mut i: usize = 0;
        while i < self.players.len()
            invariant
                0 <= i <= self@.players.len(),
                self@.players.len() == self.players@.len(),
                forall|j: int| 0 <= j < i ==> (#[trigger] self@.players[j].name) != name@,
            decreases self@.players.len() - i,
        {
            proof {
                assert(self@.players[i as int] == self.players@[i as int]@);
            }
            if str_eq(self.players[i].name.as_str(), name) {
                return Some(i);
            }
            i = i + 1;
        }
        None
    }

    /// Every registered player's name, in id order.
    pub fn iter_players(&self) -> (r: Vec<String>)
        ensures
            r@.len() == self@.players.len(),
            forall|i: int| 0 <= i < r@.len() ==> (#[trigger] r@[i]@) == self@.players[i].name,
    {
        let mut names: Vec<String> = Vec::new();
        let mut i: usize = 0;
        while i < self.players.len()
            invariant
                0 <= i <= self@.players.len(),
                self@.players.len() == self.players@.len(),
                names@.len() == i,
                forall|j: int| 0 <= j < i ==> (#[trigger] names@[j]@) == self@.players[j].name,
            decreases self@.players.len() - i,
        {
            proof {
                assert(self@.players[i as int] == self.players@[i as int]@);
            }
            names.push(self.players[i].name.clone());
            i = i + 1;
        }
        names
    }
}

/// A two-phase enqueue: the builder gathers `(opponent, red, count)`
/// triples and an exclusion list, and `done` commits them in one step.
pub struct Queue {
    player: usize,
    pending: Vec<(String, bool, u32)>,
    except: Vec<String>,
}

/// The pending entries added for every other player by `against_all`,
/// considering the first `k` players.
pub open spec fn against_all_entries(
    v: TournamentView,
    player: int,
    count: u32,
    k: int,
) -> Seq<(Seq<char>, bool, u32)>
    decreases k,
{
    if k <= 0 {
        Seq::empty()
    } else if k - 1 == player {
        against_all_entries(v, player, count, k - 1)
    } else {
        against_all_entries(v, player, count, k - 1) + seq![
            (v.players[k - 1].name, true, ((count / 2) + (count % 2)) as u32),
            (v.players[k - 1].name, false, (count / 2) as u32),
        ]
    }
}

impl Queue {
    /// The player this builder enqueues for.
    pub closed spec fn spec_player(&self) -> usize {
        self.player
    }

    /// The gathered `(opponent, red, count)` triples.
    pub closed spec fn spec_pending(&self) -> Seq<(Seq<char>, bool, u32)> {
        pending_views(self.pending@)
    }

    /// The gathered exclusions.
    pub closed spec fn spec_except(&self) -> Seq<Seq<char>> {
        names_views(self.except@)
    }

    /// Ask for `count` games against the named player, colours split
    /// evenly with the odd game as red.
    pub fn against(&mut self, name: String, count: u32)
        ensures
            final(self).spec_player() == old(self).spec_player(),
            final(self).spec_except() == old(self).spec_except(),
            final(self).spec_pending() =~= old(self).spec_pending().push(
                (name@, true, ((count / 2) + (count % 2)) as u32),
            ).push((name@, false, (count / 2) as u32)),
    {
        let red_games = count / 2 + count % 2;
        self.pending.push((name.clone(), true, red_games));
        self.pending.push((name, false, count / 2));
        proof {
            assert(final(self).spec_pending() =~= old(self).spec_pending().push(
                (name@, true, ((count / 2) + (count % 2)) as u32),
            ).push((name@, false, (count / 2) as u32)));
        }
    }

    /// Ask for `count` games against every other registered player.
    pub fn against_all(&mut self, t: &Tournament, count: u32)
        ensures
            final(self).spec_player() == old(self).spec_player(),
            final(self).spec_except() == old(self).spec_except(),
            final(self).spec_pending() =~= old(self).spec_pending() + against_all_entries(
                t@,
                old(self).spec_player() as int,
                count,
                t@.players.len() as int,
            ),
    {
        let n = t.num_players();
        let mut i: usize = 0;
        while i < n
            invariant
                n == t@.players.len(),
                0 <= i <= n,
                self.spec_player() == old(self).spec_player(),
                self.spec_except() == old(self).spec_except(),
                self.spec_pending() =~= old(self).spec_pending() + against_all_entries(
                    t@,
                    old(self).spec_player() as int,
                    count,
                    i as int,
                ),
            decreases n - i,
        {
            if i != self.player {
                let name = match t.player_name(i) {
                    Some(name) => name,
                    None => String::new(),
                };
                self.against(name, count);
            }
            proof {
                assert(self.spec_pending() =~= old(self).spec_pending() + against_all_entries(
                    t@,
                    old(self).spec_player() as int,
                    count,
                    i + 1 as int,
                ));
            }
            i = i + 1;
        }
    }

    /// Ask for a single game against the named player with an explicit
    /// colour.
    pub fn against_as(&mut self, name: String, red: bool)
        ensures
            final(self).spec_player() == old(self).spec_player(),
            final(self).spec_except() == old(self).spec_except(),
            final(self).spec_pending() =~= old(self).spec_pending().push((name@, red, 1u32)),
    {
        self.pending.push((name, red, 1));
        proof {
            assert(final(self).spec_pending() =~= old(self).spec_pending().push(
                (name@, red, 1u32),
            ));
        }
    }

    /// Leave the named player out of this enqueue.
    pub fn except(&mut self, name: String)
        ensures
            final(self).spec_player() == old(self).spec_player(),
            final(self).spec_pending() == old(self).spec_pending(),
            final(self).spec_except() =~= old(self).spec_except().push(name@),
    {
        self.except.push(name);
        proof {
            assert(final(self).spec_except() =~= old(self).spec_except().push(name@));
        }
    }

    /// Commit the gathered triples: every known, non-excluded opponent
    /// other than the player itself has its games added, unknown names
    /// come back as the error set, and the matcher runs once at the
    /// end. Known names commit regardless of the unknown ones.
    pub fn done(self, t: &mut Tournament) -> (r: (Vec<LaunchInfo>, Vec<String>))
        requires
            wf(old(t)@),
            self.spec_player() < old(t)@.players.len(),
            sum_queued(old(t)@) + pending_total(self.spec_pending()) <= u32::MAX,
        ensures
            wf(final(t)@),
            no_runnable(final(t)@),
            final(t)@.players.len() == old(t)@.players.len(),
            forall|i: int|
                0 <= i < final(t)@.players.len() ==> (#[trigger] final(t)@.players[i]).name == old(
                    t,
                )@.players[i].name,
            forall|x: int, y: int|
                (#[trigger] status_of(final(t)@, x, y)).score == status_of(old(t)@, x, y).score,
            games_outstanding(final(t)@) == games_outstanding(old(t)@) + committed_sum(
                old(t)@,
                self.spec_player() as int,
                self.spec_pending(),
                self.spec_except(),
                self.spec_pending().len() as int,
            ),
            forall|x: int, y: int|
                #[trigger] pair_outstanding(final(t)@, x, y) == pair_outstanding(
                    commit_upto(
                        old(t)@,
                        self.spec_player() as int,
                        self.spec_pending(),
                        self.spec_except(),
                        self.spec_pending().len() as int,
                    ),
                    x,
                    y,
                ),
            forall|n: Seq<char>|
                #[trigger] name_in(names_views(r.1@), n) <==> (!has_player(old(t)@, n) && (name_in(
                    pending_names(self.spec_pending()),
                    n,
                ) || name_in(self.spec_except(), n))),
            forall|i: int, j: int|
                0 <= i < j < r.1@.len() ==> (#[trigger] r.1@[i]@) != (#[trigger] r.1@[j]@),
    {
        let Queue { player, pending, except } = self;
        let ghost v0 = old(t)@;
        let ghost pv = pending_views(pending@);
        let ghost ev = names_views(except@);
        let mut unknown: Vec<String> = Vec::new();
        let mut k: usize = 0;
        while k < pending.len()
            invariant
                v0 == old(t)@,
                wf(v0),
                pv == pending_views(pending@),
                ev == names_views(except@),
                player < v0.players.len(),
                sum_queued(v0) + pending_total(pv) <= u32::MAX,
                0 <= k <= pending@.len(),
                pv.len() == pending@.len(),
                wf(t@),
                t@ =~~= commit_upto(v0, player as int, pv, ev, k as int),
                t@.players.len() == v0.players.len(),
                forall|i: int|
                    0 <= i < t@.players.len() ==> (#[trigger] t@.players[i]).name
                        == v0.players[i].name,
                forall|x: int, y: int|
                    (#[trigger] status_of(t@, x, y)).score == status_of(v0, x, y).score,
                t@.running == v0.running,
                sum_queued(t@) == sum_queued(v0) + committed_sum(v0, player as int, pv, ev, k as int),
                forall|n: Seq<char>|
                    #[trigger] name_in(names_views(unknown@), n) <==> (!has_player(v0, n)
                        && name_in(pending_names(pv).take(k as int), n)),
                forall|i: int, j: int|
                    0 <= i < j < unknown@.len() ==> (#[trigger] unknown@[i]@) != (
                    #[trigger] unknown@[j]@),
            decreases pending@.len() - k,
        {
            proof {
                assert(pv[k as int] == (pending@[k as int].0@, pending@[k as int].1, pending@[
                    k as int
                ].2));
                assert(pending_names(pv).take(k + 1 as int).drop_last() =~= pending_names(
                    pv,
                ).take(k as int));
            }
            let entry_name = pending[k].0.clone();
            let red = pending[k].1;
            let count = pending[k].2;
            let found = t.find_player(entry_name.as_str());
            match found {
                None => {
                    proof {
                        if has_player(v0, entry_name@) {
                            let w = choose|i: int|
                                0 <= i < v0.players.len() && (#[trigger] v0.players[i].name) == entry_name@;
                            assert(t@.players[w].name == entry_name@);
                            assert(false);
                        }
                    }
                    if !contains_name(&unknown, entry_name.as_str()) {
                        let ghost ukpre = unknown@;
                        unknown.push(entry_name);
                        proof {
                            assert(unknown@.drop_last() =~= ukpre);
                            assert(forall|i: int|
                                0 <= i < ukpre.len() ==> (#[trigger] unknown@[i]) == ukpre[i]);
                            assert forall|n: Seq<char>| #[trigger] name_in(
                                names_views(unknown@),
                                n,
                            ) implies (!has_player(v0, n) && name_in(
                                pending_names(pv).take(k + 1 as int),
                                n,
                            )) by {
                                let w = choose|i: int|
                                    0 <= i < names_views(unknown@).len() && (#[trigger] names_views(unknown@)[i])
                                        == n;
                                if w == unknown@.len() - 1 {
                                    assert(pending_names(pv)[k as int] == entry_name@);
                                    assert(pending_names(pv).take(k + 1 as int)[k as int] == n);
                                } else {
                                    assert(names_views(ukpre)[w] == n);
                                    assert(name_in(names_views(ukpre), n));
                                    assert(name_in(pending_names(pv).take(k as int), n));
                                    let w2 = choose|i: int|
                                        0 <= i < pending_names(pv).take(k as int).len() && (
                                        #[trigger] pending_names(pv).take(k as int)[i]) == n;
                                    assert(pending_names(pv).take(k + 1 as int)[w2] == n);
                                }
                            }
                            assert forall|n: Seq<char>| (!has_player(v0, n) && name_in(
                                pending_names(pv).take(k + 1 as int),
                                n,
                            )) implies #[trigger] name_in(names_views(unknown@), n) by {
                                if n == entry_name@ {
                                    assert(names_views(unknown@)[unknown@.len() - 1] == n);
                                } else {
                                    let w = choose|i: int|
                                        0 <= i < pending_names(pv).take(k + 1 as int).len() && (
                                        #[trigger] pending_names(pv).take(k + 1 as int)[i]) == n;
                                    assert(w < k);
                                    assert(pending_names(pv).take(k as int)[w] == n);
                                    assert(name_in(pending_names(pv).take(k as int), n));
                                    assert(name_in(names_views(ukpre), n));
                                    let w2 = choose|i: int|
                                        0 <= i < ukpre.len() && (#[trigger] names_views(ukpre)[i]) == n;
                                    assert(names_views(unknown@)[w2] == n);
                                }
                            }
                            assert forall|i: int, j: int|
                                0 <= i < j < unknown@.len() implies (#[trigger] unknown@[i]@) != (
                            #[trigger] unknown@[j]@) by {
                                if j == unknown@.len() - 1 && unknown@[i]@ == unknown@[j]@ {
                                    assert(names_views(ukpre)[i] == unknown@[j]@);
                                    assert(name_in(names_views(ukpre), unknown@[j]@));
                                    assert(false);
                                }
                            }
                        }
                    } else {
                        proof {
                            assert forall|n: Seq<char>| (!has_player(v0, n) && name_in(
                                pending_names(pv).take(k + 1 as int),
                                n,
                            )) implies #[trigger] name_in(names_views(unknown@), n) by {
                                if n == entry_name@ {
                                } else {
                                    let w = choose|i: int|
                                        0 <= i < k + 1 && (#[trigger] pending_names(pv).take(k + 1 as int)[i])
                                            == n;
                                    assert(pending_names(pv).take(k as int)[w] == n);
                                    assert(name_in(pending_names(pv).take(k as int), n));
                                }
                            }
                            assert forall|n: Seq<char>| #[trigger] name_in(
                                names_views(unknown@),
                                n,
                            ) implies (!has_player(v0, n) && name_in(
                                pending_names(pv).take(k + 1 as int),
                                n,
                            )) by {
                                assert(name_in(pending_names(pv).take(k as int), n));
                                let w = choose|i: int|
                                    0 <= i < k && (#[trigger] pending_names(pv).take(k as int)[i]) == n;
                                assert(pending_names(pv).take(k + 1 as int)[w] == n);
                            }
                        }
                    }
                },
                Some(id) => {
                    proof {
                        assert(v0.players[id as int].name == entry_name@);
                        lemma_lookup_unique(v0, entry_name@, id as int);
                        assert forall|n: Seq<char>| (!has_player(v0, n) && name_in(
                            pending_names(pv).take(k + 1 as int),
                            n,
                        )) implies #[trigger] name_in(names_views(unknown@), n) by {
                            if n == entry_name@ {
                            } else {
                                let w = choose|i: int|
                                    0 <= i < k + 1 && (#[trigger] pending_names(pv).take(k + 1 as int)[i]) == n;
                                assert(pending_names(pv).take(k as int)[w] == n);
                                assert(name_in(pending_names(pv).take(k as int), n));
                            }
                        }
                        assert forall|n: Seq<char>| #[trigger] name_in(
                            names_views(unknown@),
                            n,
                        ) implies (!has_player(v0, n) && name_in(
                            pending_names(pv).take(k + 1 as int),
                            n,
                        )) by {
                            assert(name_in(pending_names(pv).take(k as int), n));
                            let w = choose|i: int|
                                0 <= i < k && (#[trigger] pending_names(pv).take(k as int)[i]) == n;
                            assert(pending_names(pv).take(k + 1 as int)[w] == n);
                        }
                    }
                    let excluded = contains_name(&except, entry_name.as_str());
                    if !excluded && id != player && count > 0 {
                        let (h, a) = if red {
                            (player, id)
                        } else {
                            (id, player)
                        };
                        proof {
                            assert(commit_cond(v0, player as int, pv[k as int], ev));
                            assert((h as int, a as int) == commit_pair(
                                v0,
                                player as int,
                                pv[k as int],
                            ));
                            // The committed count still fits.
                            lemma_entry_le_sum(t@, h as int, a as int);
                            lemma_pending_sums(v0, player as int, pv, ev, k as int);
                            lemma_pending_sums(v0, player as int, pv, ev, k + 1 as int);
                        }
                        t.add_queued(h, a, count);
                    } else {
                        proof {
                            assert(!commit_cond(v0, player as int, pv[k as int], ev) || count == 0);
                            if excluded {
                                assert(name_in(ev, entry_name@));
                            }
                            if !excluded {
                                assert(!name_in(ev, pv[k as int].0));
                            }
                        }
                    }
                },
            }
            k = k + 1;
        }
        proof {
            assert(pending_names(pv).take(pv.len() as int) =~= pending_names(pv));
        }
        // Excluded names that are unknown are reported too.
        let mut e: usize = 0;
        while e < except.len()
            invariant
                v0 == old(t)@,
                wf(t@),
                ev == names_views(except@),
                pv == pending_views(pending@),
                t@ =~~= commit_upto(v0, player as int, pv, ev, pv.len() as int),
                0 <= e <= except@.len(),
                ev.len() == except@.len(),
                forall|n: Seq<char>|
                    #[trigger] name_in(names_views(unknown@), n) <==> (!has_player(v0, n) && (
                    name_in(pending_names(pv), n) || name_in(ev.take(e as int), n))),
                forall|i: int, j: int|
                    0 <= i < j < unknown@.len() ==> (#[trigger] unknown@[i]@) != (
                    #[trigger] unknown@[j]@),
                forall|i: int|
                    0 <= i < t@.players.len() ==> (#[trigger] t@.players[i]).name
                        == v0.players[i].name,
                t@.players.len() == v0.players.len(),
            decreases except@.len() - e,
        {
            proof {
                assert(ev[e as int] == except@[e as int]@);
                assert(ev.take(e + 1 as int).drop_last() =~= ev.take(e as int));
            }
            let entry_name = except[e].clone();
            let known = t.find_player(entry_name.as_str());
            let is_unknown = match known {
                Some(_) => false,
                None => true,
            };
            proof {
                if !is_unknown {
                    let id = known->0;
                    assert(v0.players[id as int].name == entry_name@);
                    assert(has_player(v0, entry_name@));
                } else {
                    if has_player(v0, entry_name@) {
                        let w = choose|i: int|
                            0 <= i < v0.players.len() && (#[trigger] v0.players[i].name) == entry_name@;
                        assert(t@.players[w].name == entry_name@);
                        assert(false);
                    }
                }
            }
            if is_unknown && !contains_name(&unknown, entry_name.as_str()) {
                let ghost ukpre = unknown@;
                unknown.push(entry_name);
                proof {
                    assert(unknown@.drop_last() =~= ukpre);
                    assert(forall|i: int|
                        0 <= i < ukpre.len() ==> (#[trigger] unknown@[i]) == ukpre[i]);
                    assert forall|n: Seq<char>| #[trigger] name_in(
                        names_views(unknown@),
                        n,
                    ) implies (!has_player(v0, n) && (name_in(pending_names(pv), n) || name_in(
                        ev.take(e + 1 as int),
                        n,
                    ))) by {
                        let w = choose|i: int|
                            0 <= i < names_views(unknown@).len() && (#[trigger] names_views(unknown@)[i]) == n;
                        if w == unknown@.len() - 1 {
                            assert(ev.take(e + 1 as int)[e as int] == n);
                        } else {
                            assert(names_views(ukpre)[w] == n);
                            assert(name_in(names_views(ukpre), n));
                            if name_in(ev.take(e as int), n) {
                                let w2 = choose|i: int|
                                    0 <= i < ev.take(e as int).len() && (#[trigger] ev.take(
                                        e as int,
                                    )[i]) == n;
                                assert(ev.take(e + 1 as int)[w2] == n);
                            }
                        }
                    }
                    assert forall|n: Seq<char>| (!has_player(v0, n) && (name_in(
                        pending_names(pv),
                        n,
                    ) || name_in(ev.take(e + 1 as int), n))) implies #[trigger] name_in(
                        names_views(unknown@),
                        n,
                    ) by {
                        if n == entry_name@ {
                            assert(names_views(unknown@)[unknown@.len() - 1] == n);
                        } else {
                            if name_in(ev.take(e + 1 as int), n) && !name_in(
                                pending_names(pv),
                                n,
                            ) {
                                let w = choose|i: int|
                                    0 <= i < ev.take(e + 1 as int).len() && (#[trigger] ev.take(
                                        e + 1 as int,
                                    )[i]) == n;
                                assert(w < e);
                                assert(ev.take(e as int)[w] == n);
                                assert(name_in(ev.take(e as int), n));
                            }
                            assert(name_in(names_views(ukpre), n));
                            let w3 = choose|i: int|
                                0 <= i < ukpre.len() && (#[trigger] names_views(ukpre)[i]) == n;
                            assert(names_views(unknown@)[w3] == n);
                        }
                    }
                    assert forall|i: int, j: int|
                        0 <= i < j < unknown@.len() implies (#[trigger] unknown@[i]@) != (
                    #[trigger] unknown@[j]@) by {
                        if j == unknown@.len() - 1 && unknown@[i]@ == unknown@[j]@ {
                            assert(names_views(ukpre)[i] == unknown@[j]@);
                            assert(name_in(names_views(ukpre), unknown@[j]@));
                            assert(false);
                        }
                    }
                }
            } else {
                proof {
                    assert forall|n: Seq<char>| (!has_player(v0, n) && (name_in(
                        pending_names(pv),
                        n,
                    ) || name_in(ev.take(e + 1 as int), n))) implies #[trigger] name_in(
                        names_views(unknown@),
                        n,
                    ) by {
                        if n == entry_name@ {
                            assert(!has_player(v0, n) ==> is_unknown);
                        } else if name_in(ev.take(e + 1 as int), n) && !name_in(
                            pending_names(pv),
                            n,
                        ) {
                            let w = choose|i: int|
                                0 <= i < e + 1 && (#[trigger] ev.take(e + 1 as int)[i]) == n;
                            assert(ev.take(e as int)[w] == n);
                        }
                    }
                    assert forall|n: Seq<char>| #[trigger] name_in(
                        names_views(unknown@),
                        n,
                    ) implies (!has_player(v0, n) && (name_in(pending_names(pv), n) || name_in(
                        ev.take(e + 1 as int),
                        n,
                    ))) by {
                        if name_in(ev.take(e as int), n) {
                            let w2 = choose|i: int| 0 <= i < e && (#[trigger] ev.take(e as int)[i]) == n;
                            assert(ev.take(e + 1 as int)[w2] == n);
                        }
                    }
                }
            }
            e = e + 1;
        }
        proof {
            assert(ev.take(ev.len() as int) =~= ev);
        }
        let ghost vcommit = t@;
        let launches = t.match_all();
        proof {
            assert(vcommit =~~= commit_upto(v0, player as int, pv, ev, pv.len() as int));
            assert forall|x: int, y: int| (#[trigger] status_of(final(t)@, x, y)).score
                == status_of(v0, x, y).score by {
                assert(status_of(final(t)@, x, y).score == status_of(
                    commit_upto(v0, player as int, pv, ev, pv.len() as int),
                    x,
                    y,
                ).score);
            }
            assert forall|x: int, y: int| #[trigger] pair_outstanding(final(t)@, x, y)
                == pair_outstanding(
                commit_upto(v0, player as int, pv, ev, pv.len() as int),
                x,
                y,
            ) by {
                assert(pair_outstanding(final(t)@, x, y) == pair_outstanding(vcommit, x, y));
            }
        }
        (launches, unknown)
    }
}

/// The names of a pending list.
pub open spec fn pending_names(ps: Seq<(Seq<char>, bool, u32)>) -> Seq<Seq<char>> {
    ps.map_values(|e: (Seq<char>, bool, u32)| e.0)
}

/// Whether a list of names holds this one.
fn contains_name(ns: &Vec<String>, n: &str) -> (r: bool)
    ensures
        r == name_in(names_views(ns@), n@),
{
    let mut i: usize = 0;
    while i < ns.len()
        invariant
            0 <= i <= ns@.len(),
            forall|j: int| 0 <= j < i ==> (#[trigger] ns@[j]@) != n@,
    decreases ns@.len() - i,
    {
        if str_eq(ns[i].as_str(), n) {
            proof {
                assert(names_views(ns@)[i as int] == n@);
            }
            return true;
        }
        i = i + 1;
    }
    proof {
        if name_in(names_views(ns@), n@) {
            let w = choose|j: int| 0 <= j < ns@.len() && (#[trigger] names_views(ns@)[j]) == n@;
            assert(ns@[w]@ == n@);
            assert(false);
        }
    }
    false
}

/// The merged report of the ordered pair (a, b): a's own entry for b
/// plus the negation of b's entry for a, all fields over the integers.
pub struct MergedStatus {
    pub win: int,
    pub loss: int,
    pub draw: int,
    pub queued: int,
    pub running: int,
}

/// What `status` reports for opponent `b` of player `a`: the pair's
/// entry seen from `a`, merged with the mirror image of the entry seen
/// from `b`.
pub open spec fn merged_status(v: TournamentView, a: int, b: int) -> MergedStatus {
    MergedStatus {
        win: status_of(v, a, b).score.win + status_of(v, b, a).score.loss,
        loss: status_of(v, a, b).score.loss + status_of(v, b, a).score.win,
        draw: status_of(v, a, b).score.draw + status_of(v, b, a).score.draw,
        queued: status_of(v, a, b).queued + status_of(v, b, a).queued,
        running: status_of(v, a, b).running + status_of(v, b, a).running,
    }
}

/// The two sides of a pair report mirror images of each other: wins and
/// losses swap, draws and the match counters agree — whoever enqueued
/// the games and whoever played red.
pub proof fn lemma_status_mirror(v: TournamentView, a: int, b: int)
    ensures
        merged_status(v, a, b).win == merged_status(v, b, a).loss,
        merged_status(v, a, b).loss == merged_status(v, b, a).win,
        merged_status(v, a, b).draw == merged_status(v, b, a).draw,
        merged_status(v, a, b).queued == merged_status(v, b, a).queued,
        merged_status(v, a, b).running == merged_status(v, b, a).running,
{
}

/// Games owed plus games in flight never drops below zero.
pub proof fn lemma_outstanding_nonneg(v: TournamentView)
    ensures
        games_outstanding(v) >= 0,
{
    lemma_players_sum_bounds(v.players);
}

/// The merged report of every opponent of player `a` fits the counters.
pub open spec fn merged_fits(v: TournamentView, a: int) -> bool {
    forall|b: int|
        0 <= b < v.players.len() ==> {
            let m = #[trigger] merged_status(v, a, b);
            m.win <= u32::MAX && m.loss <= u32::MAX && m.draw <= u32::MAX && m.queued <= u32::MAX
                && m.running <= u32::MAX
        }
}

/// Joining the same name twice resolves to the same player id and
/// leaves the two new instances in FIFO order at the back.
pub proof fn lemma_join_join_fifo(v: TournamentView, name: Seq<char>)
    requires
        wf(v),
        join_allowed(v, name),
        join_allowed(register_spec(v, name), name),
    ensures
        registered_id(register_spec(v, name), name) == registered_id(v, name),
        registered_seq(register_spec(v, name), name) == registered_seq(v, name) + 1,
        register_spec(register_spec(v, name), name).players[registered_id(v, name)].instances
            =~= (if has_player(v, name) {
            v.players[lookup(v, name)].instances
        } else {
            Seq::<u32>::empty()
        }).push(registered_seq(v, name)).push((registered_seq(v, name) + 1) as u32),
{
    let id = registered_id(v, name);
    let mid = register_spec(v, name);
    lemma_register_wf(v, mid, name);
    assert(0 <= id < mid.players.len() && mid.players[id].name == name) by {
        if has_player(v, name) {
        } else {
            assert(mid.players[v.players.len() as int].name == name);
        }
    }
    lemma_lookup_unique(mid, name, id);
    assert(registered_id(mid, name) == id);
    assert(mid.players[id].total == registered_seq(v, name) + 1);
    let fin = register_spec(mid, name);
    assert(fin.players[id].instances =~= mid.players[id].instances.push(mid.players[id].total));
}

/// How often a FIFO holds one serial number.
pub open spec fn count_in_deque(s: Seq<u32>, t: u32) -> int
    decreases s.len(),
{
    if s.len() == 0 {
        0
    } else {
        count_in_deque(s.drop_last(), t) + if s.last() == t {
            1int
        } else {
            0int
        }
    }
}

/// How often the running table holds one instance of one owner.
pub open spec fn count_in_running(rs: Seq<RunningView>, owner: int, t: u32) -> int
    decreases rs.len(),
{
    if rs.len() == 0 {
        0
    } else {
        count_in_running(rs.drop_last(), owner, t) + (if rs.last().home == owner
            && rs.last().home_seq == t {
            1int
        } else {
            0int
        }) + (if rs.last().away == owner && rs.last().away_seq == t {
            1int
        } else {
            0int
        })
    }
}

/// In how many places the registry holds instance `t` of player
/// `owner`: its FIFO slots plus its running-table slots.
pub open spec fn token_holders(v: TournamentView, owner: int, t: u32) -> int {
    count_in_deque(v.players[owner].instances, t) + count_in_running(v.running, owner, t)
}

proof fn lemma_deque_count_index(s: Seq<u32>, t: u32)
    ensures
        count_in_deque(s, t) >= 0,
        count_in_deque(s, t) >= 1 ==> exists|i: int| 0 <= i < s.len() && s[i] == t,
        count_in_deque(s, t) >= 2 ==> exists|i: int, j: int|
            0 <= i < j < s.len() && s[i] == t && s[j] == t,
    decreases s.len(),
{
    if s.len() > 0 {
        lemma_deque_count_index(s.drop_last(), t);
        if count_in_deque(s, t) >= 1 {
            if s.last() == t {
                assert(s[s.len() - 1] == t);
            } else {
                let i = choose|i: int| 0 <= i < s.drop_last().len() && (#[trigger] s.drop_last()[i]) == t;
                assert(s[i] == t);
            }
        }
        if count_in_deque(s, t) >= 2 {
            if s.last() == t {
                let i = choose|i: int| 0 <= i < s.drop_last().len() && (#[trigger] s.drop_last()[i]) == t;
                assert(s[i] == t && s[s.len() - 1] == t);
            } else {
                let (i, j): (int, int) = choose|i: int, j: int|
                    0 <= i < j < s.drop_last().len() && (#[trigger] s.drop_last()[i]) == t && (
                    #[trigger] s.drop_last()[j]) == t;
                assert(s[i] == t && s[j] == t);
            }
        }
    }
}

proof fn lemma_running_count_index(rs: Seq<RunningView>, owner: int, t: u32)
    ensures
        count_in_running(rs, owner, t) >= 0,
        count_in_running(rs, owner, t) >= 1 ==> exists|j: int|
            0 <= j < rs.len() && holds_token(#[trigger] rs[j], owner, t),
        count_in_running(rs, owner, t) >= 2 ==> (exists|j: int|
            0 <= j < rs.len() && (#[trigger] rs[j]).home == owner && rs[j].home_seq == t
                && rs[j].away == owner && rs[j].away_seq == t) || (exists|j1: int, j2: int|
            0 <= j1 < j2 < rs.len() && holds_token(#[trigger] rs[j1], owner, t) && holds_token(
                #[trigger] rs[j2],
                owner,
                t,
            )),
    decreases rs.len(),
{
    if rs.len() > 0 {
        lemma_running_count_index(rs.drop_last(), owner, t);
        let last = rs.len() - 1;
        assert(rs[last] == rs.last());
        assert(forall|j: int| 0 <= j < last ==> (#[trigger] rs.drop_last()[j]) == rs[j]);
        if count_in_running(rs, owner, t) >= 1 {
            if holds_token(rs[last], owner, t) {
            } else {
                let j = choose|j: int|
                    0 <= j < rs.drop_last().len() && holds_token(#[trigger] rs.drop_last()[j], owner, t);
                assert(holds_token(rs[j], owner, t));
            }
        }
        if count_in_running(rs, owner, t) >= 2 {
            if rs.last().home == owner && rs.last().home_seq == t && rs.last().away == owner
                && rs.last().away_seq == t {
            } else if holds_token(rs[last], owner, t) {
                let j = choose|j: int|
                    0 <= j < rs.drop_last().len() && holds_token(#[trigger] rs.drop_last()[j], owner, t);
                assert(holds_token(rs[j], owner, t) && holds_token(rs[last], owner, t));
            }
        }
    }
}

/// One running entry holds instance `t` of `owner` on some side.
pub open spec fn holds_token(m: RunningView, owner: int, t: u32) -> bool {
    (m.home == owner && m.home_seq == t) || (m.away == owner && m.away_seq == t)
}

/// Linear ownership: at any instant the registry holds a given instance
/// of a given player in at most one place — one FIFO slot or one side
/// of one running match, never two.
pub proof fn lemma_instance_linear(v: TournamentView, owner: int, t: u32)
    requires
        wf(v),
        0 <= owner < v.players.len(),
    ensures
        token_holders(v, owner, t) <= 1,
{
    let dq = v.players[owner].instances;
    lemma_deque_count_index(dq, t);
    lemma_running_count_index(v.running, owner, t);
    if count_in_deque(dq, t) >= 2 {
        let (i, j): (int, int) = choose|i: int, j: int|
            0 <= i < j < dq.len() && (#[trigger] dq[i]) == t && (#[trigger] dq[j]) == t;
        assert(false);
    }
    if count_in_running(v.running, owner, t) >= 2 {
        assert(false) by {
            if exists|j: int|
                0 <= j < v.running.len() && (#[trigger] v.running[j]).home == owner
                    && v.running[j].home_seq == t && v.running[j].away == owner
                    && v.running[j].away_seq == t {
                let j = choose|j: int|
                    0 <= j < v.running.len() && (#[trigger] v.running[j]).home == owner
                        && v.running[j].home_seq == t && v.running[j].away == owner
                        && v.running[j].away_seq == t;
                assert(v.running[j].home != v.running[j].away);
            } else {
                let (j1, j2): (int, int) = choose|j1: int, j2: int|
                    0 <= j1 < j2 < v.running.len() && holds_token(#[trigger] v.running[j1], owner, t)
                        && holds_token(#[trigger] v.running[j2], owner, t);
                assert(v.running[j1].home != v.running[j1].away);
                assert(v.running[j2].home != v.running[j2].away);
            }
        }
    }
    if count_in_deque(dq, t) >= 1 && count_in_running(v.running, owner, t) >= 1 {
        let i = choose|i: int| 0 <= i < dq.len() && (#[trigger] dq[i]) == t;
        let j = choose|j: int|
            0 <= j < v.running.len() && holds_token(#[trigger] v.running[j], owner, t);
        assert(false);
    }
}

} // verus!
