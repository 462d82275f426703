//! Bugs: their kinds, their walk along the cable, and their end.
use vstd::prelude::*;
use crate::grid::{WorldPos, center_of, offset_ok, grid_to_world};
use crate::motion::{in_world, dist2, step_toward, move_toward, distance_squared};
use crate::wave::GameState;

verus! {

/// The kinds of bug a wave sends.
#[derive(Clone, Copy, Debug, PartialEq, Eq, Structural)]
pub enum BugType {
    Bug,
    Ant,
    Hamster,
}

/// A bug on its way along the cable.
#[derive(Clone, Copy, Debug, PartialEq, Eq, Structural)]
pub struct BugSprite {
    pub position: WorldPos,
    /// Index of the cable cell the bug walks toward.
    pub cable_progress: usize,
    /// Slow-down from a resistor, in thousandths (1000: none).
    pub resistor_debuff: u32,
    pub health: i64,
    /// Speed of its kind, in thousandths of the base speed.
    pub speed_factor: u32,
    /// The elite kind, which costs more health when it gets through.
    pub hamster: bool,
    /// The tag of the capacitor shot aimed at it, if any.
    pub target: Option<u64>,
}

/// Base speed of a bug, in world units per frame.
pub const BUG_SPEED: i64 = 2137;

/// A bug this close to its cable cell has reached it.
pub const ARRIVAL_DISTANCE: i64 = 3000;

/// Health lost when any bug gets through.
pub const BREACH_DAMAGE: u32 = 10;

/// Further health lost when a hamster gets through.
pub const HAMSTER_PENALTY: u32 = 2137;

/// No slow-down.
pub const NO_DEBUFF: u32 = 1000;

/// The health a bug of a kind starts with.
pub open spec fn start_health(t: BugType) -> i64 {
    match t {
        BugType::Bug => 1000,
        BugType::Ant => 500,
        BugType::Hamster => 15000,
    }
}

/// The speed of a kind, in thousandths of the base speed.
pub open spec fn speed_of(t: BugType) -> u32 {
    match t {
        BugType::Bug => 1000,
        BugType::Ant => 1700,
        BugType::Hamster => 400,
    }
}

/// A bug whose numbers the simulation can take.
pub open spec fn bug_ok(b: BugSprite) -> bool {
    in_world(b.position) && b.resistor_debuff <= NO_DEBUFF && b.speed_factor <= 2000
}

/// Every bug is one the simulation can take.
pub open spec fn bugs_ok(bugs: Seq<BugSprite>) -> bool {
    forall|i: int| 0 <= i < bugs.len() ==> bug_ok(#[trigger] bugs[i])
}

/// A fresh bug of a kind at a position: at the start of the cable, full
/// speed and health, not aimed at.
pub open spec fn fresh_bug(bug_type: BugType, position: WorldPos) -> BugSprite {
    BugSprite {
        position,
        cable_progress: 0,
        resistor_debuff: NO_DEBUFF,
        health: start_health(bug_type),
        speed_factor: speed_of(bug_type),
        hamster: bug_type == BugType::Hamster,
        target: None,
    }
}

impl BugSprite {
    /// A fresh bug of a kind at a position.
    pub fn new(bug_type: BugType, position: WorldPos) -> (r: BugSprite)
        ensures
            r == fresh_bug(bug_type, position),
    {
        let (health, speed_factor) = match bug_type {
            BugType::Bug => (1000, 1000),
            BugType::Ant => (500, 1700),
            BugType::Hamster => (15000, 400),
        };
        BugSprite {
            position,
            cable_progress: 0,
            resistor_debuff: NO_DEBUFF,
            health,
            speed_factor,
            hamster: bug_type == BugType::Hamster,
            target: None,
        }
    }
}

/// A bug's speed this frame, in world units.
pub open spec fn bug_speed(b: BugSprite) -> int {
    BUG_SPEED * b.resistor_debuff * b.speed_factor / 1_000_000
}

/// The health a bug costs when it gets through.
pub open spec fn breach_penalty(b: BugSprite) -> int {
    if b.hamster {
        BREACH_DAMAGE + HAMSTER_PENALTY
    } else {
        BREACH_DAMAGE as int
    }
}

/// The centre of a cable cell of a level drawn at `offset`.
pub open spec fn cell_center(offset: WorldPos, c: (i32, i32)) -> WorldPos {
    WorldPos {
        x: center_of(c.0 as int, offset.x as int) as i64,
        y: center_of(c.1 as int, offset.y as int) as i64,
    }
}

/// One frame of a bug's walk: near its cable cell it moves on to the next
/// (and gets through past the last); otherwise it steps toward the cell.
/// The flag tells whether it got through.
pub open spec fn walk(b: BugSprite, cable: Seq<(i32, i32)>, offset: WorldPos) -> (BugSprite, bool) {
    if b.cable_progress >= cable.len() {
        (b, true)
    } else {
        let target = cell_center(offset, cable[b.cable_progress as int]);
        if dist2(b.position, target) < ARRIVAL_DISTANCE * ARRIVAL_DISTANCE {
            (
                BugSprite { cable_progress: (b.cable_progress + 1) as usize, ..b },
                b.cable_progress + 1 >= cable.len(),
            )
        } else {
            (BugSprite { position: step_toward(b.position, target, bug_speed(b)), ..b }, false)
        }
    }
}

/// The bugs still on the cable after one frame, in their order.
pub open spec fn walk_all(bugs: Seq<BugSprite>, cable: Seq<(i32, i32)>, offset: WorldPos) -> Seq<
    BugSprite,
>
    decreases bugs.len(),
{
    if bugs.len() == 0 {
        bugs
    } else {
        let rest = walk_all(bugs.drop_last(), cable, offset);
        let w = walk(bugs.last(), cable, offset);
        if w.1 {
            rest
        } else {
            rest.push(w.0)
        }
    }
}

/// The health that the bugs getting through in one frame cost.
pub open spec fn breach_loss(bugs: Seq<BugSprite>, cable: Seq<(i32, i32)>, offset: WorldPos) -> int
    decreases bugs.len(),
{
    if bugs.len() == 0 {
        0
    } else {
        breach_loss(bugs.drop_last(), cable, offset) + if walk(bugs.last(), cable, offset).1 {
            breach_penalty(bugs.last())
        } else {
            0
        }
    }
}

/// Health after a loss, never below zero.
pub open spec fn health_after(h: int, loss: int) -> int {
    if h - loss < 0 {
        0
    } else {
        h - loss
    }
}

proof fn lemma_center_in_world(offset: WorldPos, c: (i32, i32))
    requires
        offset_ok(offset),
    ensures
        in_world(cell_center(offset, c)),
        cell_center(offset, c).x == center_of(c.0 as int, offset.x as int),
        cell_center(offset, c).y == center_of(c.1 as int, offset.y as int),
{
}

fn walk_bug(b: BugSprite, cable: &Vec<(i32, i32)>, offset: WorldPos) -> (r: (BugSprite, bool))
    requires
        bug_ok(b),
        offset_ok(offset),
    ensures
        r == walk(b, cable@, offset),
        bug_ok(r.0),
{
    if b.cable_progress >= cable.len() {
        return (b, true);
    }
    let target = grid_to_world(offset, cable[b.cable_progress]);
    proof {
        lemma_center_in_world(offset, cable@[b.cable_progress as int]);
    }
    assert(target == cell_center(offset, cable@[b.cable_progress as int]));
    assert(ARRIVAL_DISTANCE * ARRIVAL_DISTANCE == 9_000_000);
    if distance_squared(b.position, target) < 9_000_000 {
        let progress = b.cable_progress + 1;
        (BugSprite { cable_progress: progress, ..b }, progress >= cable.len())
    } else {
        assert(BUG_SPEED * b.resistor_debuff * b.speed_factor <= 2137 * 1000 * 2000) by (
        nonlinear_arith)
            requires
                b.resistor_debuff <= 1000,
                b.speed_factor <= 2000,
        ;
        let speed = (BUG_SPEED as u64 * b.resistor_debuff as u64 * b.speed_factor as u64
            / 1_000_000) as i64;
        (BugSprite { position: move_toward(b.position, target, speed), ..b }, false)
    }
}

/// Moves every bug one frame along the cable. Bugs that get through leave
/// and cost the player health: the base amount each, more for a hamster.
pub fn move_bugs(
    bugs: &mut Vec<BugSprite>,
    cable: &Vec<(i32, i32)>,
    offset: WorldPos,
    state: &mut GameState,
)
    requires
        bugs_ok(old(bugs)@),
        offset_ok(offset),
    ensures
        final(bugs)@ == walk_all(old(bugs)@, cable@, offset),
        bugs_ok(final(bugs)@),
        final(state).health == health_after(
            old(state).health as int,
            breach_loss(old(bugs)@, cable@, offset),
        ),
        final(state).health <= old(state).health,
        final(state).round_running == old(state).round_running,
{
    let ghost b0 = bugs@;
    let ghost h0 = state.health;
    let mut kept: Vec<BugSprite> = Vec::new();
    let mut i: usize = 0;
    while i < bugs.len()
        invariant
            i <= b0.len(),
            bugs@ == b0,
            bugs_ok(b0),
            offset_ok(offset),
            kept@ == walk_all(b0.take(i as int), cable@, offset),
            bugs_ok(kept@),
            state.health == health_after(h0 as int, breach_loss(b0.take(i as int), cable@, offset)),
            state.round_running == old(state).round_running,
            breach_loss(b0.take(i as int), cable@, offset) >= 0,
        decreases b0.len() - i,
    {
        let (b, through) = walk_bug(bugs[i], cable, offset);
        assert(b0.take(i + 1).drop_last() =~= b0.take(i as int));
        assert(b0.take(i + 1).last() == b0[i as int]);
        if through {
            let penalty: u32 = if bugs[i].hamster {
                BREACH_DAMAGE + HAMSTER_PENALTY
            } else {
                BREACH_DAMAGE
            };
            state.health = state.health.saturating_sub(penalty);
        } else {
            kept.push(b);
        }
        i = i + 1;
    }
    assert(b0.take(b0.len() as int) =~= b0);
    *bugs = kept;
}

/// The bugs whose health is above zero, in their order.
pub open spec fn living(bugs: Seq<BugSprite>) -> Seq<BugSprite> {
    bugs.filter(|b: BugSprite| b.health > 0)
}

/// A bug that lives on keeps what it had.
pub proof fn lemma_living_ok(bugs: Seq<BugSprite>, k: int)
    requires
        0 <= k < living(bugs).len(),
    ensures
        bug_ok(living(bugs)[k]) <== bugs_ok(bugs),
{
    let f = |b: BugSprite| b.health > 0;
    assert(living(bugs).contains(living(bugs)[k]));
    bugs.lemma_filter_contains_rev(f, living(bugs)[k]);
}

/// Removes the bugs whose health has run out; returns how many left.
pub fn check_bug_health(bugs: &mut Vec<BugSprite>) -> (r: usize)
    ensures
        final(bugs)@ == living(old(bugs)@),
        r == old(bugs)@.len() - living(old(bugs)@).len(),
{
    let ghost b0 = bugs@;
    let mut kept: Vec<BugSprite> = Vec::new();
    let mut i: usize = 0;
    while i < bugs.len()
        invariant
            i <= b0.len(),
            bugs@ == b0,
            kept@ == living(b0.take(i as int)),
            kept@.len() <= i,
        decreases b0.len() - i,
    {
        assert(b0.take(i + 1).drop_last() =~= b0.take(i as int));
        reveal(Seq::filter);
        if bugs[i].health > 0 {
            kept.push(bugs[i]);
        }
        i = i + 1;
    }
    assert(b0.take(b0.len() as int) =~= b0);
    let dead = bugs.len() - kept.len();
    *bugs = kept;
    dead
}

/// A bug that gets through costs the base amount of health, or the base
/// amount and the hamster's penalty for a hamster; a breach never raises
/// the player's health.
pub proof fn lemma_breach_accounting(
    b: BugSprite,
    cable: Seq<(i32, i32)>,
    offset: WorldPos,
    health: u32,
)
    requires
        walk(b, cable, offset).1,
    ensures
        breach_loss(seq![b], cable, offset) == breach_penalty(b),
        breach_penalty(b) == if b.hamster {
            BREACH_DAMAGE + HAMSTER_PENALTY
        } else {
            BREACH_DAMAGE as int
        },
        walk_all(seq![b], cable, offset).len() == 0,
        health_after(health as int, breach_loss(seq![b], cable, offset)) <= health,
        health >= breach_penalty(b) ==> health_after(
            health as int,
            breach_loss(seq![b], cable, offset),
        ) == health - breach_penalty(b),
{
    let s = seq![b];
    assert(s.drop_last() =~= Seq::<BugSprite>::empty());
    assert(s.last() == b);
    assert(breach_loss(s.drop_last(), cable, offset) == 0);
    assert(walk_all(s.drop_last(), cable, offset).len() == 0);
}

} // verus!
