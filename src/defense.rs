//! What towers do each frame: slow, flash, shoot, and the shots' flight.
use vstd::prelude::*;
use crate::grid::{WorldPos, offset_ok, cell_of, world_to_grid, grid_to_world};
use crate::motion::{in_world, dist2, step_toward, move_toward, distance_squared, within};
use crate::bug::{BugSprite, bugs_ok, bug_ok, cell_center, NO_DEBUFF};
use crate::tower::{
    TowerEntry,
    TowerSprite,
    TowerType,
    CapacitorBullet,
    tower_at,
    unique_cells,
    find_tower,
    bullets_ok,
    DIODE_FRAMES,
    CAPACITOR_FRAMES,
};

verus! {

/// Reach of a diode's flash: one and a half cells, in world units.
pub const DIODE_RANGE: i64 = 72000;

/// Reach of a capacitor: six cells, in world units.
pub const CAPACITOR_RANGE: i64 = 288000;

/// A shot this close to its bug hits it.
pub const HIT_DISTANCE: i64 = 9600;

/// Distance a shot flies each frame, in world units.
pub const BULLET_SPEED: i64 = 21370;

/// Health after damage `d`, held at the least `i64`.
pub open spec fn hurt(h: i64, d: int) -> i64 {
    if h - d < i64::MIN {
        i64::MIN
    } else {
        (h - d) as i64
    }
}

fn hurt_exec(h: i64, d: i64) -> (r: i64)
    requires
        d >= 0,
    ensures
        r == hurt(h, d as int),
{
    if h < i64::MIN + d {
        i64::MIN
    } else {
        h - d
    }
}

/// Every tower's upgrade factor is at least one.
pub open spec fn factors_ok(towers: Seq<TowerEntry>) -> bool {
    forall|i: int| 0 <= i < towers.len() ==> (#[trigger] towers[i]).tower.upgrade_factor >= 1
}

/// The slow-down on a bug at `pos`: half speed, divided by the upgrade
/// factor, where a resistor stands on its cell; none elsewhere.
pub open spec fn debuff_at(towers: Seq<TowerEntry>, offset: WorldPos, pos: WorldPos) -> u32 {
    let cx = cell_of(pos.x as int, offset.x as int);
    let cy = cell_of(pos.y as int, offset.y as int);
    if i32::MIN <= cx <= i32::MAX && i32::MIN <= cy <= i32::MAX {
        match tower_at(towers, (cx as i32, cy as i32)) {
            Some(t) => if t.tower_type == TowerType::Resistor && t.upgrade_factor >= 1 {
                (500int / (t.upgrade_factor as int)) as u32
            } else {
                NO_DEBUFF
            },
            None => NO_DEBUFF,
        }
    } else {
        NO_DEBUFF
    }
}

/// Sets every bug's slow-down afresh from the tower on its cell, so that a
/// bug that has left a resistor's cell walks at full speed again.
pub fn handle_resistor(towers: &Vec<TowerEntry>, offset: WorldPos, bugs: &mut Vec<BugSprite>)
    requires
        unique_cells(towers@),
        bugs_ok(old(bugs)@),
    ensures
        final(bugs)@.len() == old(bugs)@.len(),
        forall|j: int|
            0 <= j < old(bugs)@.len() ==> #[trigger] final(bugs)@[j] == (BugSprite {
                resistor_debuff: debuff_at(towers@, offset, old(bugs)@[j].position),
                ..old(bugs)@[j]
            }),
        bugs_ok(final(bugs)@),
{
    let ghost b0 = bugs@;
    let mut j: usize = 0;
    while j < bugs.len()
        invariant
            j <= b0.len(),
            bugs@.len() == b0.len(),
            unique_cells(towers@),
            bugs_ok(b0),
            forall|k: int|
                0 <= k < j ==> #[trigger] bugs@[k] == (BugSprite {
                    resistor_debuff: debuff_at(towers@, offset, b0[k].position),
                    ..b0[k]
                }),
            forall|k: int| j <= k < b0.len() ==> #[trigger] bugs@[k] == b0[k],
        decreases b0.len() - j,
    {
        let mut debuff: u32 = NO_DEBUFF;
        match world_to_grid(offset, bugs[j].position) {
            Some(cell) => match find_tower(towers, cell) {
                Some(i) => {
                    let t = towers[i].tower;
                    if t.tower_type == TowerType::Resistor && t.upgrade_factor >= 1 {
                        debuff = 500 / t.upgrade_factor;
                    }
                },
                None => {},
            },
            None => {},
        }
        bugs[j].resistor_debuff = debuff;
        j = j + 1;
    }
}

/// A bug on a cell where no resistor stands walks at full speed: its
/// slow-down does not outlast the resistor's cell.
pub proof fn lemma_debuff_resets(
    towers: Seq<TowerEntry>,
    offset: WorldPos,
    pos: WorldPos,
    cell: (i32, i32),
)
    requires
        cell.0 == cell_of(pos.x as int, offset.x as int),
        cell.1 == cell_of(pos.y as int, offset.y as int),
        !(tower_at(towers, cell) matches Some(t) && t.tower_type == TowerType::Resistor),
    ensures
        debuff_at(towers, offset, pos) == NO_DEBUFF,
{
}

/// A tower one frame on: its counter advanced modulo its period.
pub open spec fn ticked(e: TowerEntry, kind: TowerType, period: u32) -> TowerEntry {
    if e.tower.tower_type == kind {
        TowerEntry {
            tower: TowerSprite {
                frame_counter: ((e.tower.frame_counter + 1) % (period as int)) as u32,
                ..e.tower
            },
            ..e
        }
    } else {
        e
    }
}

/// Whether a tower acts this frame: its counter wraps to zero.
pub open spec fn fires(e: TowerEntry, kind: TowerType, period: u32) -> bool {
    e.tower.tower_type == kind && (e.tower.frame_counter + 1) % (period as int) == 0
}

/// The damage of a diode's flash.
pub open spec fn diode_damage(upgrade_factor: u32) -> int {
    250 + 50 * upgrade_factor
}

/// The bugs after one tower's flash, if it flashes.
pub open spec fn flash(bugs: Seq<BugSprite>, e: TowerEntry, offset: WorldPos) -> Seq<BugSprite> {
    if fires(e, TowerType::Diode, DIODE_FRAMES) {
        bugs.map_values(
            |b: BugSprite|
                if dist2(cell_center(offset, e.cell), b.position) <= DIODE_RANGE * DIODE_RANGE {
                    BugSprite { health: hurt(b.health, diode_damage(e.tower.upgrade_factor)), ..b }
                } else {
                    b
                },
        )
    } else {
        bugs
    }
}

/// The bugs after the flashes of the first `n` towers, in order.
pub open spec fn flash_all(
    bugs: Seq<BugSprite>,
    towers: Seq<TowerEntry>,
    offset: WorldPos,
    n: nat,
) -> Seq<BugSprite>
    decreases n,
{
    if n == 0 {
        bugs
    } else {
        flash(flash_all(bugs, towers, offset, (n - 1) as nat), towers[n - 1], offset)
    }
}

fn flash_bugs(bugs: &mut Vec<BugSprite>, e: TowerEntry, offset: WorldPos)
    requires
        bugs_ok(old(bugs)@),
        offset_ok(offset),
        fires(e, TowerType::Diode, DIODE_FRAMES),
    ensures
        final(bugs)@ == flash(old(bugs)@, e, offset),
        bugs_ok(final(bugs)@),
{
    let ghost b0 = bugs@;
    let center = grid_to_world(offset, e.cell);
    assert(center == cell_center(offset, e.cell));
    let damage: i64 = 250 + 50 * e.tower.upgrade_factor as i64;
    let mut j: usize = 0;
    while j < bugs.len()
        invariant
            j <= b0.len(),
            bugs@.len() == b0.len(),
            bugs_ok(b0),
            in_world(center),
            center == cell_center(offset, e.cell),
            damage == diode_damage(e.tower.upgrade_factor),
            fires(e, TowerType::Diode, DIODE_FRAMES),
            forall|k: int| 0 <= k < j ==> #[trigger] bugs@[k] == flash(b0, e, offset)[k],
            forall|k: int| j <= k < b0.len() ==> #[trigger] bugs@[k] == b0[k],
        decreases b0.len() - j,
    {
        if within(center, bugs[j].position, DIODE_RANGE) {
            let h = hurt_exec(bugs[j].health, damage);
            bugs[j].health = h;
        }
        j = j + 1;
    }
    assert(bugs@ =~= flash(b0, e, offset));
}

/// Advances every diode's counter; each diode whose counter wraps flashes,
/// hurting every bug within its reach by 250 plus 50 per upgrade.
pub fn handle_led(towers: &mut Vec<TowerEntry>, offset: WorldPos, bugs: &mut Vec<BugSprite>)
    requires
        bugs_ok(old(bugs)@),
        offset_ok(offset),
    ensures
        final(towers)@.len() == old(towers)@.len(),
        forall|i: int|
            0 <= i < old(towers)@.len() ==> #[trigger] final(towers)@[i] == ticked(
                old(towers)@[i],
                TowerType::Diode,
                DIODE_FRAMES,
            ),
        final(bugs)@ == flash_all(old(bugs)@, old(towers)@, offset, old(towers)@.len()),
        bugs_ok(final(bugs)@),
{
    let ghost t0 = towers@;
    let ghost b0 = bugs@;
    let mut i: usize = 0;
    while i < towers.len()
        invariant
            i <= t0.len(),
            towers@.len() == t0.len(),
            offset_ok(offset),
            forall|k: int|
                0 <= k < i ==> #[trigger] towers@[k] == ticked(t0[k], TowerType::Diode, DIODE_FRAMES),
            forall|k: int| i <= k < t0.len() ==> #[trigger] towers@[k] == t0[k],
            bugs@ == flash_all(b0, t0, offset, i as nat),
            bugs_ok(bugs@),
        decreases t0.len() - i,
    {
        let e = towers[i];
        if e.tower.tower_type == TowerType::Diode {
            let counter = (e.tower.frame_counter as u64 + 1) % (DIODE_FRAMES as u64);
            towers[i].tower.frame_counter = counter as u32;
            if counter == 0 {
                flash_bugs(bugs, e, offset);
            }
        }
        i = i + 1;
    }
}

/// The index of the first bug from `k` on lying at most `r` from `p`, or the
/// number of bugs if none does.
pub open spec fn first_within(bugs: Seq<BugSprite>, p: WorldPos, r: int, k: int) -> int
    decreases bugs.len() - k,
{
    if k < 0 || k >= bugs.len() {
        bugs.len() as int
    } else if dist2(p, bugs[k].position) <= r * r {
        k
    } else {
        first_within(bugs, p, r, k + 1)
    }
}

fn find_first_within(bugs: &Vec<BugSprite>, p: WorldPos, r: i64) -> (j: usize)
    requires
        bugs_ok(bugs@),
        in_world(p),
        0 <= r <= crate::motion::POS_LIMIT,
    ensures
        j == first_within(bugs@, p, r as int, 0),
{
    let mut k: usize = 0;
    while k < bugs.len()
        invariant
            k <= bugs@.len(),
            bugs_ok(bugs@),
            in_world(p),
            0 <= r <= crate::motion::POS_LIMIT,
            first_within(bugs@, p, r as int, 0) == first_within(bugs@, p, r as int, k as int),
        decreases bugs@.len() - k,
    {
        if within(p, bugs[k].position, r) {
            return k;
        }
        k = k + 1;
    }
    k
}

/// The damage of a capacitor's shot.
pub open spec fn capacitor_damage(upgrade_factor: u32) -> int {
    750 + 100 * upgrade_factor
}

/// The tag after `t`; the largest tag stays.
pub open spec fn tag_after(t: u64) -> u64 {
    if t < u64::MAX {
        (t + 1) as u64
    } else {
        t
    }
}

/// Bugs, shots in flight, and the next shot's tag.
pub type ShotState = (Seq<BugSprite>, Seq<CapacitorBullet>, u64);

/// One capacitor's turn: when its counter wraps it tags the first bug within
/// reach and fires a shot carrying that tag from its cell.
pub open spec fn shoot(st: ShotState, e: TowerEntry, offset: WorldPos) -> ShotState {
    let c = cell_center(offset, e.cell);
    let j = first_within(st.0, c, CAPACITOR_RANGE as int, 0);
    if fires(e, TowerType::Capacitor, CAPACITOR_FRAMES) && j < st.0.len() {
        (
            st.0.update(j, BugSprite { target: Some(st.2), ..st.0[j] }),
            st.1.push(
                CapacitorBullet {
                    position: c,
                    id: st.2,
                    damage: capacitor_damage(e.tower.upgrade_factor) as i64,
                },
            ),
            tag_after(st.2),
        )
    } else {
        st
    }
}

/// The state after the turns of the first `n` towers, in order.
pub open spec fn shoot_all(st: ShotState, towers: Seq<TowerEntry>, offset: WorldPos, n: nat) -> ShotState
    decreases n,
{
    if n == 0 {
        st
    } else {
        shoot(shoot_all(st, towers, offset, (n - 1) as nat), towers[n - 1], offset)
    }
}

/// Advances every capacitor's counter; each capacitor whose counter wraps
/// aims at the first bug within its reach, if any, and fires at it.
pub fn handle_capacitor(
    towers: &mut Vec<TowerEntry>,
    offset: WorldPos,
    bugs: &mut Vec<BugSprite>,
    bullets: &mut Vec<CapacitorBullet>,
    next_tag: &mut u64,
)
    requires
        bugs_ok(old(bugs)@),
        bullets_ok(old(bullets)@),
        offset_ok(offset),
    ensures
        final(towers)@.len() == old(towers)@.len(),
        forall|i: int|
            0 <= i < old(towers)@.len() ==> #[trigger] final(towers)@[i] == ticked(
                old(towers)@[i],
                TowerType::Capacitor,
                CAPACITOR_FRAMES,
            ),
        (final(bugs)@, final(bullets)@, *final(next_tag)) == shoot_all(
            (old(bugs)@, old(bullets)@, *old(next_tag)),
            old(towers)@,
            offset,
            old(towers)@.len(),
        ),
        bugs_ok(final(bugs)@),
        bullets_ok(final(bullets)@),
{
    let ghost t0 = towers@;
    let ghost s0: ShotState = (bugs@, bullets@, *next_tag);
    let mut i: usize = 0;
    while i < towers.len()
        invariant
            i <= t0.len(),
            towers@.len() == t0.len(),
            offset_ok(offset),
            forall|k: int|
                0 <= k < i ==> #[trigger] towers@[k] == ticked(
                    t0[k],
                    TowerType::Capacitor,
                    CAPACITOR_FRAMES,
                ),
            forall|k: int| i <= k < t0.len() ==> #[trigger] towers@[k] == t0[k],
            (bugs@, bullets@, *next_tag) == shoot_all(s0, t0, offset, i as nat),
            bugs_ok(bugs@),
            bullets_ok(bullets@),
        decreases t0.len() - i,
    {
        let e = towers[i];
        if e.tower.tower_type == TowerType::Capacitor {
            let counter = (e.tower.frame_counter as u64 + 1) % (CAPACITOR_FRAMES as u64);
            towers[i].tower.frame_counter = counter as u32;
            if counter == 0 {
                let center = grid_to_world(offset, e.cell);
                assert(center == cell_center(offset, e.cell));
                let j = find_first_within(bugs, center, CAPACITOR_RANGE);
                if j < bugs.len() {
                    let tag = *next_tag;
                    bugs[j].target = Some(tag);
                    bullets.push(
                        CapacitorBullet {
                            position: center,
                            id: tag,
                            damage: 750 + 100 * e.tower.upgrade_factor as i64,
                        },
                    );
                    if tag < u64::MAX {
                        *next_tag = tag + 1;
                    }
                    assert(bugs_ok(bugs@)) by {
                        assert forall|k: int| 0 <= k < bugs@.len() implies bug_ok(
                            #[trigger] bugs@[k],
                        ) by {
                            if k != j {
                                assert(bugs@[k] == shoot_all(s0, t0, offset, i as nat).0[k]);
                            }
                        }
                    }
                }
            }
        }
        i = i + 1;
    }
}

/// The index of the first bug from `k` on that carries tag `id`, or the
/// number of bugs if none does.
pub open spec fn tagged(bugs: Seq<BugSprite>, id: u64, k: int) -> int
    decreases bugs.len() - k,
{
    if k < 0 || k >= bugs.len() {
        bugs.len() as int
    } else if bugs[k].target == Some(id) {
        k
    } else {
        tagged(bugs, id, k + 1)
    }
}

fn find_tagged(bugs: &Vec<BugSprite>, id: u64) -> (j: usize)
    ensures
        j == tagged(bugs@, id, 0),
{
    let mut k: usize = 0;
    while k < bugs.len()
        invariant
            k <= bugs@.len(),
            tagged(bugs@, id, 0) == tagged(bugs@, id, k as int),
        decreases bugs@.len() - k,
    {
        match bugs[k].target {
            Some(t) => {
                if t == id {
                    return k;
                }
            },
            None => {},
        }
        k = k + 1;
    }
    k
}

/// Bugs, and the shots still flying.
pub type FlightState = (Seq<BugSprite>, Seq<CapacitorBullet>);

/// One shot's frame: without its bug it is gone; close to it, it hits and is
/// gone; otherwise it flies on toward the bug.
pub open spec fn fly(st: FlightState, b: CapacitorBullet) -> FlightState {
    let j = tagged(st.0, b.id, 0);
    if j >= st.0.len() {
        st
    } else if dist2(b.position, st.0[j].position) < HIT_DISTANCE * HIT_DISTANCE {
        (
            st.0.update(j, BugSprite { health: hurt(st.0[j].health, b.damage as int), ..st.0[j] }),
            st.1,
        )
    } else {
        (
            st.0,
            st.1.push(
                CapacitorBullet {
                    position: step_toward(b.position, st.0[j].position, BULLET_SPEED as int),
                    ..b
                },
            ),
        )
    }
}

/// The state after the first `n` shots' frames, in order.
pub open spec fn fly_all(st: FlightState, bullets: Seq<CapacitorBullet>, n: nat) -> FlightState
    decreases n,
{
    if n == 0 {
        st
    } else {
        fly(fly_all(st, bullets, (n - 1) as nat), bullets[n - 1])
    }
}

/// Moves every shot one frame toward its bug; a shot that reaches its bug
/// hurts it by the shot's damage, and a shot whose bug is gone vanishes.
pub fn handle_capacitor_bullet(bugs: &mut Vec<BugSprite>, bullets: &mut Vec<CapacitorBullet>)
    requires
        bugs_ok(old(bugs)@),
        bullets_ok(old(bullets)@),
    ensures
        (final(bugs)@, final(bullets)@) == fly_all(
            (old(bugs)@, Seq::empty()),
            old(bullets)@,
            old(bullets)@.len(),
        ),
        bugs_ok(final(bugs)@),
        bullets_ok(final(bullets)@),
{
    let ghost b0 = bullets@;
    let ghost g0 = bugs@;
    let mut flying: Vec<CapacitorBullet> = Vec::new();
    let mut i: usize = 0;
    while i < bullets.len()
        invariant
            i <= b0.len(),
            bullets@ == b0,
            bullets_ok(b0),
            (bugs@, flying@) == fly_all((g0, Seq::empty()), b0, i as nat),
            bugs_ok(bugs@),
            bullets_ok(flying@),
        decreases b0.len() - i,
    {
        let b = bullets[i];
        assert(in_world(b0[i as int].position));
        let j = find_tagged(bugs, b.id);
        if j < bugs.len() {
            let target = bugs[j].position;
            assert(bug_ok(bugs@[j as int]));
            if distance_squared(b.position, target) < 92_160_000 {
                let h = hurt_exec(bugs[j].health, b.damage);
                bugs[j].health = h;
                assert(bugs_ok(bugs@)) by {
                    assert forall|k: int| 0 <= k < bugs@.len() implies bug_ok(
                        #[trigger] bugs@[k],
                    ) by {
                        if k != j {
                            assert(bugs@[k] == fly_all((g0, Seq::empty()), b0, i as nat).0[k]);
                        }
                    }
                }
            } else {
                let moved = CapacitorBullet {
                    position: move_toward(b.position, target, BULLET_SPEED),
                    ..b
                };
                flying.push(moved);
            }
        }
        i = i + 1;
    }
    *bullets = flying;
}

} // verus!
