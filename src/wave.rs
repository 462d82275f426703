//! Rounds: the global game state and the waves of bugs each round sends.
use vstd::prelude::*;
use crate::grid::grid_to_world;
use crate::bug::{BugSprite, BugType, fresh_bug, cell_center, bug_ok};
use crate::level::{Level, LevelManager, levels_wf, lemma_replace_level, same_ground};
use crate::tower::{TowerEntry, TowerSprite};
use crate::ui::{show_continue_button, hide_continue_button, continue_shown, continue_hidden};

verus! {

/// State shared by all levels.
#[derive(Clone, Copy, Debug, PartialEq, Eq, Structural)]
pub struct GameState {
    /// The player's remaining health.
    pub health: u32,
    /// Whether a round is being played.
    pub round_running: bool,
}

/// A round started (`running`) or ended.
#[derive(Clone, Copy, Debug, PartialEq, Eq, Structural)]
pub struct WaveStateChange {
    pub running: bool,
}

/// The player's health at the start of a game.
pub const START_HEALTH: u32 = 100;

impl GameState {
    /// The state at the start of a game.
    pub fn new() -> (r: GameState)
        ensures
            r.health == START_HEALTH,
            !r.round_running,
    {
        GameState { health: START_HEALTH, round_running: false }
    }
}

/// A new game: its state, and the event that shows the control to start the
/// first round.
pub fn setup_game() -> (r: (GameState, WaveStateChange))
    ensures
        r.0.health == START_HEALTH,
        !r.0.round_running,
        r.1 == (WaveStateChange { running: false }),
{
    (GameState::new(), WaveStateChange { running: false })
}

impl GameState {
    /// Starts a round: the event that sets the current level going.
    pub fn start_round(&mut self) -> (r: WaveStateChange)
        ensures
            final(self).round_running,
            final(self).health == old(self).health,
            r == (WaveStateChange { running: true }),
    {
        self.round_running = true;
        WaveStateChange { running: true }
    }
}

/// `n` bugs of one kind.
pub open spec fn repeat(t: BugType, n: nat) -> Seq<BugType> {
    Seq::new(n, |i: int| t)
}

/// The bugs of a round and the frames between two of them.
pub open spec fn composition(round: u32) -> (Seq<BugType>, u32) {
    let b = BugType::Bug;
    let a = BugType::Ant;
    if round == 1 {
        (repeat(BugType::Hamster, 1), 1)
    } else if round == 2 {
        (repeat(b, 20), 150)
    } else if round == 3 {
        (repeat(b, 30), 100)
    } else if round == 4 {
        (repeat(b, 10) + repeat(a, 10) + repeat(b, 10), 140)
    } else if round == 5 {
        (repeat(b, 5) + repeat(a, 5) + repeat(b, 5) + repeat(a, 5), 80)
    } else if round == 6 {
        (repeat(b, 10) + repeat(a, 10) + repeat(b, 10) + repeat(a, 10), 80)
    } else if round == 7 {
        (repeat(a, 30), 60)
    } else if round == 8 {
        (repeat(b, 5) + repeat(a, 5) + repeat(b, 5) + repeat(a, 5) + repeat(b, 10) + repeat(a, 10), 60)
    } else if round == 9 {
        (repeat(b, 5) + repeat(a, 5) + repeat(b, 5) + repeat(a, 5) + repeat(b, 10) + repeat(a, 10), 40)
    } else {
        (repeat(a, 100), 10)
    }
}

fn push_n(v: &mut Vec<BugType>, t: BugType, n: usize)
    ensures
        final(v)@ == old(v)@ + repeat(t, n as nat),
{
    let ghost v0 = v@;
    let mut i: usize = 0;
    while i < n
        invariant
            i <= n,
            v@ == v0 + repeat(t, i as nat),
        decreases n - i,
    {
        v.push(t);
        i = i + 1;
        assert(v@ =~= v0 + repeat(t, i as nat));
    }
}

/// The bugs of a round, in the order listed, and the frames between two.
pub fn get_wave_composition(round: u32) -> (r: (Vec<BugType>, u32))
    ensures
        (r.0@, r.1) == composition(round),
        r.1 >= 1,
{
    let b = BugType::Bug;
    let a = BugType::Ant;
    let mut v: Vec<BugType> = Vec::new();
    let speed: u32 = if round == 1 {
        push_n(&mut v, BugType::Hamster, 1);
        1
    } else if round == 2 {
        push_n(&mut v, b, 20);
        150
    } else if round == 3 {
        push_n(&mut v, b, 30);
        100
    } else if round == 4 {
        push_n(&mut v, b, 10);
        push_n(&mut v, a, 10);
        push_n(&mut v, b, 10);
        140
    } else if round == 5 {
        push_n(&mut v, b, 5);
        push_n(&mut v, a, 5);
        push_n(&mut v, b, 5);
        push_n(&mut v, a, 5);
        80
    } else if round == 6 {
        push_n(&mut v, b, 10);
        push_n(&mut v, a, 10);
        push_n(&mut v, b, 10);
        push_n(&mut v, a, 10);
        80
    } else if round == 7 {
        push_n(&mut v, a, 30);
        60
    } else if round == 8 || round == 9 {
        push_n(&mut v, b, 5);
        push_n(&mut v, a, 5);
        push_n(&mut v, b, 5);
        push_n(&mut v, a, 5);
        push_n(&mut v, b, 10);
        push_n(&mut v, a, 10);
        if round == 8 {
            60
        } else {
            40
        }
    } else {
        push_n(&mut v, a, 100);
        10
    };
    assert(v@ =~= composition(round).0);
    (v, speed)
}

/// One frame of pacing while a round runs: the counter advances modulo the
/// interval, and when it wraps the last bug of the queue comes in at the
/// start of the cable.
pub fn spawn_wave(level: &mut Level, running: bool) -> (spawned: bool)
    requires
        old(level).wf(),
    ensures
        final(level).wf(),
        same_ground(*final(level), *old(level)),
        final(level).towers@ == old(level).towers@,
        final(level).money == old(level).money,
        final(level).round == old(level).round,
        final(level).bug_queue_speed == old(level).bug_queue_speed,
        final(level).bullets@ == old(level).bullets@,
        final(level).next_tag == old(level).next_tag,
        !running ==> final(level).bug_frames == old(level).bug_frames,
        running ==> final(level).bug_frames == (old(level).bug_frames + 1) % (
        old(level).bug_queue_speed as int),
        running ==> (final(level).bug_frames as int, final(level).bug_queue@.len() as int) == paced(
            old(level).bug_frames as int,
            old(level).bug_queue@.len() as int,
            old(level).bug_queue_speed as int,
            1,
        ),
        spawned == (running && final(level).bug_frames == 0 && old(level).bug_queue@.len() > 0),
        spawned ==> final(level).bug_queue@ == old(level).bug_queue@.drop_last()
            && final(level).bugs@ == old(level).bugs@.push(
            fresh_bug(
                old(level).bug_queue@.last(),
                cell_center(old(level).tilemap.origin(), old(level).cable@[0]),
            ),
        ),
        !spawned ==> final(level).bug_queue@ == old(level).bug_queue@ && final(level).bugs@ == old(level).bugs@,
{
    assert(paced(
        level.bug_frames as int,
        level.bug_queue@.len() as int,
        level.bug_queue_speed as int,
        0,
    ) == (level.bug_frames as int, level.bug_queue@.len() as int));
    if !running {
        return false;
    }
    level.bug_frames = ((level.bug_frames as u64 + 1) % (level.bug_queue_speed as u64)) as u32;
    if level.bug_frames != 0 {
        return false;
    }
    match level.bug_queue.pop() {
        None => false,
        Some(t) => {
            let position = grid_to_world(level.tilemap.offset(), level.cable[0]);
            assert(position == cell_center(level.tilemap.origin(), level.cable@[0]));
            let bug = BugSprite::new(t, position);
            assert(bug_ok(bug));
            level.bugs.push(bug);
            true
        },
    }
}

/// Money after a reward, held at the largest `i64`.
pub open spec fn paid(money: i64, reward: int) -> i64 {
    if money + reward > i64::MAX {
        i64::MAX
    } else {
        (money + reward) as i64
    }
}

/// The reward for winning a round.
pub open spec fn round_reward(round: u32) -> int {
    500 * round
}

/// The upgrade factor a tower gets when its level wins a round.
pub open spec fn upgrade_for(round: u32) -> u32 {
    if round < u32::MAX {
        (round + 1) as u32
    } else {
        u32::MAX
    }
}

/// A parent level's tower after the level inside it, `child`, won `round`.
pub open spec fn upgraded(e: TowerEntry, child: usize, round: u32) -> TowerEntry {
    if e.tower.level_index == child {
        TowerEntry { tower: TowerSprite { upgrade_factor: upgrade_for(round), ..e.tower }, ..e }
    } else {
        e
    }
}

/// Whether the current level's round is over: it runs, nothing is left to
/// send and no bug is left.
pub open spec fn round_over(m: LevelManager, state: GameState) -> bool {
    state.round_running && m.levels@[m.active as int].bugs@.len() == 0
        && m.levels@[m.active as int].bug_queue@.len() == 0
}

/// Ends the current level's round once it is over: the round stops, the
/// level earns 500 per round number, and the tower holding the level in
/// its parent gets the round number plus one as its upgrade factor.
pub fn end_wave(manager: &mut LevelManager, state: &mut GameState) -> (r: Option<WaveStateChange>)
    requires
        old(manager).wf(),
    ensures
        final(manager).wf(),
        final(manager).active == old(manager).active,
        final(manager).levels@.len() == old(manager).levels@.len(),
        final(state).health == old(state).health,
        !round_over(*old(manager), *old(state)) ==> r.is_none() && *final(state) == *old(state)
            && final(manager).levels@ == old(manager).levels@,
        round_over(*old(manager), *old(state)) ==> ({
            let a = old(manager).active as int;
            let l = old(manager).levels@[a];
            &&& r == Some(WaveStateChange { running: false })
            &&& !final(state).round_running
            &&& final(manager).levels@[a] == (Level {
                money: paid(l.money, round_reward(l.round)),
                ..l
            })
            &&& match l.parent {
                None => forall|k: int|
                    0 <= k < old(manager).levels@.len() && k != a ==> #[trigger] final(manager).levels@[k] == old(manager).levels@[k],
                Some(p) => {
                    &&& final(manager).levels@[p as int].towers@ == old(manager).levels@[
                        p as int].towers@.map_values(
                        |e: TowerEntry| upgraded(e, a as usize, l.round),
                    )
                    &&& same_ground(final(manager).levels@[p as int], old(manager).levels@[p as int])
                    &&& forall|k: int|
                        0 <= k < old(manager).levels@.len() && k != a && k != p ==> #[trigger] final(manager).levels@[k] == old(manager).levels@[k]
                },
            }
        }),
{
    let a = manager.active;
    if !state.round_running || manager.levels[a].bugs.len() > 0 || manager.levels[a].bug_queue.len()
        > 0 {
        return None;
    }
    state.round_running = false;
    let ghost l0 = manager.levels@;
    let round = manager.levels[a].round;
    let reward: i64 = 500 * round as i64;
    let money = manager.levels[a].money;
    let paid_money = if money > i64::MAX - reward {
        i64::MAX
    } else {
        money + reward
    };
    manager.levels[a].money = paid_money;
    proof {
        lemma_replace_level(l0, a as int, manager.levels@[a as int]);
    }
    assert(manager.levels@[a as int] =~= (Level { money: paid(l0[a as int].money, round_reward(round)), ..l0[a as int] }));
    match manager.levels[a].parent {
        None => {},
        Some(p) => {
            let ghost l1 = manager.levels@;
            let upgrade: u32 = if round < u32::MAX {
                round + 1
            } else {
                u32::MAX
            };
            let ghost t0 = l1[p as int].towers@;
            let mut i: usize = 0;
            while i < manager.levels[p].towers.len()
                invariant
                    levels_wf(l1),
                    manager.active == a,
                    p < a < l1.len(),
                    manager.levels@.len() == l1.len(),
                    t0 == l1[p as int].towers@,
                    upgrade == upgrade_for(round),
                    i <= t0.len(),
                    manager.levels@[p as int].towers@.len() == t0.len(),
                    forall|k: int|
                        0 <= k < i ==> #[trigger] manager.levels@[p as int].towers@[k] == upgraded(
                            t0[k],
                            a,
                            round,
                        ),
                    forall|k: int|
                        i <= k < t0.len() ==> #[trigger] manager.levels@[p as int].towers@[k]
                            == t0[k],
                    forall|k: int| 0 <= k < l1.len() && k != p ==> #[trigger] manager.levels@[k] == l1[k],
                    same_ground(manager.levels@[p as int], l1[p as int]),
                    manager.levels@[p as int] == (Level { towers: manager.levels@[p as int].towers, ..l1[p as int] }),
                decreases t0.len() - i,
            {
                if manager.levels[p].towers[i].tower.level_index == a {
                    manager.levels[p].towers[i].tower.upgrade_factor = upgrade;
                }
                i = i + 1;
            }
            assert(manager.levels@[p as int].towers@ =~= t0.map_values(
                |e: TowerEntry| upgraded(e, a, round),
            ));
            let ghost np = manager.levels@[p as int];
            assert(np.wf()) by {
                assert(forall|k: int| 0 <= k < np.towers@.len() ==> (#[trigger] np.towers@[k]).cell == t0[k].cell);
            }
            assert(np.links_below(l1.len()));
            proof {
                lemma_replace_level(l1, p as int, np);
                assert(manager.levels@ =~= l1.update(p as int, np));
            }
        },
    }
    Some(WaveStateChange { running: false })
}

/// Applies a round's start or end to the current level: a start counts the
/// round, hides the continue button and loads the round's bugs; an end
/// shows the continue button again.
pub fn handle_continue_button(manager: &mut LevelManager, event: WaveStateChange)
    requires
        old(manager).wf(),
    ensures
        final(manager).wf(),
        final(manager).active == old(manager).active,
        final(manager).levels@.len() == old(manager).levels@.len(),
        forall|k: int|
            0 <= k < old(manager).levels@.len() && k != old(manager).active ==> #[trigger] final(manager).levels@[k] == old(manager).levels@[k],
        ({
            let l = old(manager).levels@[old(manager).active as int];
            let n = final(manager).levels@[old(manager).active as int];
            &&& n == Level {
                round: n.round,
                bug_queue: n.bug_queue,
                bug_queue_speed: n.bug_queue_speed,
                tilemap: n.tilemap,
                ..l
            }
            &&& n.tilemap.origin() == l.tilemap.origin()
            &&& if event.running {
                let round = if l.round < u32::MAX {
                    (l.round + 1) as u32
                } else {
                    l.round
                };
                &&& n.round == round
                &&& (n.bug_queue@, n.bug_queue_speed) == composition(round)
                &&& n.tilemap@ == continue_hidden(l.tilemap@)
            } else {
                &&& n.round == l.round
                &&& n.bug_queue@ == l.bug_queue@
                &&& n.bug_queue_speed == l.bug_queue_speed
                &&& n.tilemap@ == continue_shown(l.tilemap@, l.parent is Some)
            }
        }),
{
    let a = manager.active;
    let ghost l0 = manager.levels@;
    if event.running {
        if manager.levels[a].round < u32::MAX {
            manager.levels[a].round = manager.levels[a].round + 1;
        }
        hide_continue_button(&mut manager.levels[a].tilemap);
        let (queue, speed) = get_wave_composition(manager.levels[a].round);
        manager.levels[a].bug_queue = queue;
        manager.levels[a].bug_queue_speed = speed;
    } else {
        let has_parent = manager.levels[a].parent.is_some();
        show_continue_button(&mut manager.levels[a].tilemap, has_parent);
    }
    proof {
        lemma_replace_level(l0, a as int, manager.levels@[a as int]);
        assert(manager.levels@ =~= l0.update(a as int, manager.levels@[a as int]));
    }
}

/// The pacing counter and the number of bugs still to send after `n` frames
/// of a running round: each frame the counter advances modulo `speed`, and
/// when it wraps one bug is sent, if any is left.
pub open spec fn paced(frames: int, left: int, speed: int, n: nat) -> (int, int)
    decreases n,
{
    if n == 0 {
        (frames, left)
    } else {
        let (f, l) = paced(frames, left, speed, (n - 1) as nat);
        let g = (f + 1) % speed;
        (
            g,
            if g == 0 && l > 0 {
                l - 1
            } else {
                l
            },
        )
    }
}

proof fn lemma_paced_split(frames: int, left: int, speed: int, a: nat, b: nat)
    ensures
        paced(frames, left, speed, a + b) == ({
            let (f, l) = paced(frames, left, speed, a);
            paced(f, l, speed, b)
        }),
    decreases b,
{
    if b > 0 {
        lemma_paced_split(frames, left, speed, a, (b - 1) as nat);
        assert((a + b - 1) as nat == a + (b - 1) as nat);
    }
}

proof fn lemma_paced_quiet(left: int, speed: int, j: nat)
    requires
        speed >= 1,
        j < speed,
    ensures
        paced(0, left, speed, j) == (j as int, left),
    decreases j,
{
    if j > 0 {
        lemma_paced_quiet(left, speed, (j - 1) as nat);
        vstd::arithmetic::div_mod::lemma_small_mod(j, speed as nat);
    }
}

proof fn lemma_paced_period(left: int, speed: int)
    requires
        speed >= 1,
        left > 0,
    ensures
        paced(0, left, speed, speed as nat) == (0int, left - 1),
{
    lemma_paced_quiet(left, speed, (speed - 1) as nat);
    assert(paced(0, left, speed, (speed - 1) as nat) == (speed - 1, left));
    vstd::arithmetic::div_mod::lemma_mod_self_0(speed);
    assert((speed as nat - 1) as nat == (speed - 1) as nat);
}

proof fn lemma_paced_periods(q: int, speed: int, k: nat)
    requires
        speed >= 1,
        k <= q,
    ensures
        paced(0, q, speed, k * (speed as nat)) == (0int, q - k),
    decreases k,
{
    let s = speed as nat;
    if k == 0 {
        assert(k * s == 0) by (nonlinear_arith)
            requires
                k == 0,
        ;
    } else {
        lemma_paced_periods(q, speed, (k - 1) as nat);
        assert(k * s == (k - 1) as nat * s + s) by (nonlinear_arith)
            requires
                k > 0,
        ;
        lemma_paced_split(0, q, speed, (k - 1) as nat * s, s);
        lemma_paced_period(q - k + 1, speed);
    }
}

/// From a fresh counter, a round's `q` bugs sent every `speed` frames: after
/// `j` frames (up to `q * speed`) the counter stands at `j % speed` and one
/// bug has been sent on every `speed`-th frame, `j / speed` in all.
pub proof fn lemma_pacing(q: nat, speed: int, j: nat)
    requires
        speed >= 1,
        j <= q * (speed as nat),
    ensures
        paced(0, q as int, speed, j) == (j as int % speed, q - j as int / speed),
{
    let s = speed as nat;
    let k = j / s;
    let r = j % s;
    vstd::arithmetic::div_mod::lemma_fundamental_div_mod(j as int, speed);
    vstd::arithmetic::div_mod::lemma_mod_bound(j as int, speed);
    assert(k <= q) by {
        if k > q {
            assert(k * s >= (q + 1) * s) by (nonlinear_arith)
                requires
                    k >= q + 1,
                    s >= 1,
            ;
            assert((q + 1) * s == q * s + s) by (nonlinear_arith);
        }
    }
    assert(j == k * s + r) by (nonlinear_arith)
        requires
            j == speed * (j as int / speed) + j as int % speed,
            k == j / s,
            r == j % s,
            s == speed,
    ;
    lemma_paced_periods(q as int, speed, k);
    lemma_paced_split(0, q as int, speed, k * s, r);
    lemma_paced_quiet(q - k, speed, r);
}

/// From a fresh counter, a round's `q` bugs sent every `speed` frames have
/// all been sent after `q * speed` frames, with the counter back at rest,
/// and one bug is still to send one frame earlier.
pub proof fn lemma_queue_drains(q: nat, speed: int)
    requires
        speed >= 1,
    ensures
        paced(0, q as int, speed, q * (speed as nat)) == (0int, 0int),
        q > 0 ==> paced(0, q as int, speed, (q * (speed as nat) - 1) as nat) == (speed - 1, 1int),
{
    let s = speed as nat;
    lemma_pacing(q, speed, q * s);
    vstd::arithmetic::div_mod::lemma_mod_multiples_basic(q as int, speed);
    vstd::arithmetic::div_mod::lemma_div_multiples_vanish(q as int, speed);
    assert(q * s == speed * q) by (nonlinear_arith)
        requires
            s == speed,
    ;
    if q > 0 {
        let j = (q * s - 1) as nat;
        assert(q * s >= s) by (nonlinear_arith)
            requires
                q >= 1,
        ;
        lemma_pacing(q, speed, j);
        assert(j == (q - 1) * s + (s - 1)) by (nonlinear_arith)
            requires
                j == q * s - 1,
                s >= 1,
        ;
        vstd::arithmetic::div_mod::lemma_fundamental_div_mod_converse(
            j as int,
            speed,
            q - 1,
            speed - 1,
        );
    }
}

/// Frames of a running round, one after another: where each step is one
/// frame of pacing, as `spawn_wave` gives it, the state after `j` of them is
/// `paced` of the first state over `j` frames.
pub proof fn lemma_spawn_frames(states: Seq<(int, int)>, speed: int)
    requires
        states.len() >= 1,
        forall|i: int|
            0 <= i < states.len() - 1 ==> #[trigger] states[i + 1] == paced(
                states[i].0,
                states[i].1,
                speed,
                1,
            ),
    ensures
        forall|j: int| 0 <= j < states.len() ==> #[trigger] states[j] == paced(states[0].0, states[0].1, speed, j as nat),
{
    assert forall|j: int| 0 <= j < states.len() implies #[trigger] states[j] == paced(
        states[0].0,
        states[0].1,
        speed,
        j as nat,
    ) by {
        lemma_spawn_prefix(states, speed, j);
    }
}

proof fn lemma_spawn_prefix(states: Seq<(int, int)>, speed: int, j: int)
    requires
        0 <= j < states.len(),
        forall|i: int|
            0 <= i < states.len() - 1 ==> #[trigger] states[i + 1] == paced(
                states[i].0,
                states[i].1,
                speed,
                1,
            ),
    ensures
        states[j] == paced(states[0].0, states[0].1, speed, j as nat),
    decreases j,
{
    if j > 0 {
        lemma_spawn_prefix(states, speed, j - 1);
        lemma_paced_split(states[0].0, states[0].1, speed, (j - 1) as nat, 1);
        assert(states[j] == paced(states[j - 1].0, states[j - 1].1, speed, 1));
    }
}

/// Where nothing overflows, winning round `n` pays exactly `500 * n` and
/// gives the parent's tower the upgrade factor `n + 1`.
pub proof fn lemma_round_reward(money: i64, round: u32)
    requires
        money + 500 * round <= i64::MAX,
        round < u32::MAX,
    ensures
        paid(money, round_reward(round)) == money + 500 * round,
        upgrade_for(round) == round + 1,
{
}

} // verus!
