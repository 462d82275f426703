//! Handlers that apply events to the levels of a game.
use vstd::prelude::*;
use crate::grid::{TileAddress, WorldPos};
use crate::tilemap::{Tilemap, TileType, set_spec};
use crate::cable::{random_path_spec, random_path};
use crate::bug::{
    BugSprite,
    walk_all,
    breach_loss,
    health_after,
    living,
    fresh_bug,
    cell_center,
    move_bugs,
    check_bug_health,
    bugs_ok,
    bug_ok,
    lemma_living_ok,
};
use crate::defense::{
    debuff_at,
    ticked,
    flash_all,
    shoot_all,
    fly_all,
    handle_resistor,
    handle_led,
    handle_capacitor,
    handle_capacitor_bullet,
};
use crate::tower::{
    TowerSprite,
    TowerType,
    TowerEntry,
    tower_at,
    marker_tile,
    find_tower,
    insert_tower,
    remove_tower,
    tower_type_to_tile_type,
    TOWER_LAYER,
    DIODE_FRAMES,
    CAPACITOR_FRAMES,
};
use crate::level::{Level, LevelManager, LevelTheme, lemma_replace_level, fresh_level, MAX_LEVELS};
use crate::selection::{SelectionEvent, TowerBuildEvent, LevelSwitchEvent};
use crate::ui::{
    panel_shown,
    panel_hidden,
    show_control_panel,
    hide_control_panel,
    button_spec,
    step_out_tiles,
    show_step_out,
    STEP_OUT_ROW,
};
use crate::wave::GameState;

verus! {

/// `after` is `before` with level `a` changed in its tiles alone.
pub open spec fn only_tiles(before: Seq<Level>, after: Seq<Level>, a: int) -> bool {
    &&& after.len() == before.len()
    &&& after == before.update(a, after[a])
    &&& after[a] == Level { tilemap: after[a].tilemap, ..before[a] }
    &&& after[a].tilemap.origin() == before[a].tilemap.origin()
}

/// The tiles after a selection moved: the marker drawn on the new tile,
/// then cleared from the old one.
pub open spec fn marker_after(m: Map<TileAddress, TileType>, e: SelectionEvent) -> Map<
    TileAddress,
    TileType,
> {
    let m1 = match e.selected {
        Some(s) => set_spec(m, s, Some(TileType::SelectionBigger)),
        None => m,
    };
    match e.deselected {
        Some(d) => set_spec(m1, d, None),
        None => m1,
    }
}

/// Moves the selection marker on the current level.
pub fn config_selection_animation(manager: &mut LevelManager, event: SelectionEvent)
    requires
        old(manager).wf(),
    ensures
        final(manager).wf(),
        final(manager).active == old(manager).active,
        only_tiles(old(manager).levels@, final(manager).levels@, old(manager).active as int),
        final(manager).levels@[old(manager).active as int].tilemap@ == marker_after(
            old(manager).levels@[old(manager).active as int].tilemap@,
            event,
        ),
{
    let a = manager.active;
    let ghost l0 = manager.levels@;
    match event.selected {
        Some(s) => {
            manager.levels[a].tilemap.set(s, Some(TileType::SelectionBigger));
        },
        None => {},
    }
    match event.deselected {
        Some(d) => {
            manager.levels[a].tilemap.set(d, None);
        },
        None => {},
    }
    proof {
        lemma_replace_level(l0, a as int, manager.levels@[a as int]);
        assert(manager.levels@ =~= l0.update(a as int, manager.levels@[a as int]));
    }
}

/// Redraws the build menu of the current level for a selection.
pub fn handle_tower_options(manager: &mut LevelManager, event: SelectionEvent)
    requires
        old(manager).wf(),
    ensures
        final(manager).wf(),
        final(manager).active == old(manager).active,
        only_tiles(old(manager).levels@, final(manager).levels@, old(manager).active as int),
        final(manager).levels@[old(manager).active as int].tilemap@ == crate::ui::options_after(
            old(manager).levels@[old(manager).active as int].tilemap@,
            event.selected,
        ),
{
    let a = manager.active;
    let ghost l0 = manager.levels@;
    crate::ui::tower_options(&mut manager.levels[a].tilemap, event.selected);
    proof {
        lemma_replace_level(l0, a as int, manager.levels@[a as int]);
        assert(manager.levels@ =~= l0.update(a as int, manager.levels@[a as int]));
    }
}

/// Shows the control panel when the selection lands on a tower, and hides
/// it otherwise.
pub fn tower_control_panel(manager: &mut LevelManager, event: SelectionEvent, running: bool)
    requires
        old(manager).wf(),
    ensures
        final(manager).wf(),
        final(manager).active == old(manager).active,
        only_tiles(old(manager).levels@, final(manager).levels@, old(manager).active as int),
        ({
            let l = old(manager).levels@[old(manager).active as int];
            final(manager).levels@[old(manager).active as int].tilemap@ == match event.selected {
                Some(s) => if tower_at(l.towers@, (s.x, s.y)).is_some() {
                    panel_shown(l.tilemap@, running)
                } else {
                    panel_hidden(l.tilemap@)
                },
                None => panel_hidden(l.tilemap@),
            }
        }),
{
    let a = manager.active;
    let ghost l0 = manager.levels@;
    let show = match event.selected {
        Some(s) => find_tower(&manager.levels[a].towers, (s.x, s.y)).is_some(),
        None => false,
    };
    if show {
        show_control_panel(&mut manager.levels[a].tilemap, running);
    } else {
        hide_control_panel(&mut manager.levels[a].tilemap);
    }
    proof {
        lemma_replace_level(l0, a as int, manager.levels@[a as int]);
        assert(manager.levels@ =~= l0.update(a as int, manager.levels@[a as int]));
    }
}

/// Frames a diode stays lit after a flash.
pub const DIODE_DURATION: u32 = 10;

/// The tiles after lighting the first `n` towers' diodes: lit on the frame
/// of a flash, dark again some frames later.
pub open spec fn leds_drawn(m: Map<TileAddress, TileType>, towers: Seq<TowerEntry>, n: nat) -> Map<
    TileAddress,
    TileType,
>
    decreases n,
{
    if n == 0 {
        m
    } else {
        let m1 = leds_drawn(m, towers, (n - 1) as nat);
        let e = towers[n - 1];
        let a = TileAddress { x: e.cell.0, y: e.cell.1, layer: TOWER_LAYER };
        if e.tower.tower_type != TowerType::Diode {
            m1
        } else if e.tower.frame_counter == 0 {
            set_spec(m1, a, Some(TileType::LedOn))
        } else if e.tower.frame_counter == DIODE_DURATION {
            set_spec(m1, a, Some(TileType::LedOff))
        } else {
            m1
        }
    }
}

/// Lights and darkens the diodes of a level's towers.
fn draw_leds(tilemap: &mut Tilemap, towers: &Vec<TowerEntry>)
    requires
        old(tilemap).wf(),
    ensures
        final(tilemap).wf(),
        final(tilemap).origin() == old(tilemap).origin(),
        final(tilemap)@ == leds_drawn(old(tilemap)@, towers@, towers@.len()),
{
    let mut i: usize = 0;
    while i < towers.len()
        invariant
            i <= towers@.len(),
            tilemap.wf(),
            tilemap.origin() == old(tilemap).origin(),
            tilemap@ == leds_drawn(old(tilemap)@, towers@, i as nat),
        decreases towers@.len() - i,
    {
        let e = towers[i];
        let address = TileAddress { x: e.cell.0, y: e.cell.1, layer: TOWER_LAYER };
        if e.tower.tower_type == TowerType::Diode {
            if e.tower.frame_counter == 0 {
                tilemap.set(address, Some(TileType::LedOn));
            } else if e.tower.frame_counter == DIODE_DURATION {
                tilemap.set(address, Some(TileType::LedOff));
            }
        }
        i = i + 1;
    }
}

/// Every bug's slow-down set afresh from the tower on its cell.
pub open spec fn debuffed(bugs: Seq<BugSprite>, towers: Seq<TowerEntry>, offset: WorldPos) -> Seq<
    BugSprite,
> {
    bugs.map_values(
        |b: BugSprite| BugSprite { resistor_debuff: debuff_at(towers, offset, b.position), ..b },
    )
}

/// Every tower of a kind one frame on.
pub open spec fn ticked_all(towers: Seq<TowerEntry>, kind: TowerType, period: u32) -> Seq<
    TowerEntry,
> {
    towers.map_values(|e: TowerEntry| ticked(e, kind, period))
}

/// One frame of level `l` has made `n`, with the game state going from `s`
/// to `t`: slow-downs are set afresh, bugs walk, diodes flash, capacitors
/// fire, shots fly, dead bugs leave (`died` of them), and while a round
/// runs the pacing counter may let the next bug in (`spawned`).
pub open spec fn frame_done(
    l: Level,
    n: Level,
    s: GameState,
    t: GameState,
    died: usize,
    spawned: bool,
) -> bool {
    let o = l.tilemap.origin();
    let b1 = debuffed(l.bugs@, l.towers@, o);
    let b2 = walk_all(b1, l.cable@, o);
    let b3 = flash_all(b2, l.towers@, o, l.towers@.len());
    let t1 = ticked_all(l.towers@, TowerType::Diode, DIODE_FRAMES);
    let shot = shoot_all((b3, l.bullets@, l.next_tag), t1, o, t1.len());
    let flown = fly_all((shot.0, Seq::empty()), shot.1, shot.1.len());
    let alive = living(flown.0);
    &&& n.wf()
    &&& n.cable@ == l.cable@
    &&& n.theme == l.theme
    &&& n.parent == l.parent
    &&& n.money == l.money
    &&& n.round == l.round
    &&& n.bug_queue_speed == l.bug_queue_speed
    &&& n.tilemap.origin() == o
    &&& n.tilemap@ == leds_drawn(l.tilemap@, t1, t1.len())
    &&& n.towers@ == ticked_all(t1, TowerType::Capacitor, CAPACITOR_FRAMES)
    &&& n.next_tag == shot.2
    &&& n.bullets@ == flown.1
    &&& died == flown.0.len() - alive.len()
    &&& t.round_running == s.round_running
    &&& t.health == health_after(s.health as int, breach_loss(b1, l.cable@, o))
    &&& !s.round_running ==> n.bug_frames == l.bug_frames
    &&& s.round_running ==> n.bug_frames == (l.bug_frames + 1) % (l.bug_queue_speed as int)
    &&& spawned == (s.round_running && n.bug_frames == 0 && l.bug_queue@.len() > 0)
    &&& spawned ==> n.bug_queue@ == l.bug_queue@.drop_last() && n.bugs@ == alive.push(
        fresh_bug(l.bug_queue@.last(), cell_center(o, l.cable@[0])),
    )
    &&& !spawned ==> n.bug_queue@ == l.bug_queue@ && n.bugs@ == alive
}

impl Level {
    /// Lights and darkens the diodes of this level.
    pub fn animate_leds(&mut self)
        requires
            old(self).wf(),
        ensures
            final(self).wf(),
            *final(self) == (Level { tilemap: final(self).tilemap, ..*old(self) }),
            final(self).tilemap.origin() == old(self).tilemap.origin(),
            final(self).tilemap@ == leds_drawn(old(self).tilemap@, old(self).towers@, old(self).towers@.len()),
    {
        draw_leds(&mut self.tilemap, &self.towers);
    }

    /// Plays one frame of this level; returns how many bugs died and whether
    /// a bug came in.
    pub fn frame(&mut self, state: &mut GameState) -> (r: (usize, bool))
        requires
            old(self).wf(),
        ensures
            frame_done(*old(self), *final(self), *old(state), *final(state), r.0, r.1),
    {
        let ghost l = *self;
        let offset = self.tilemap.offset();
        handle_resistor(&self.towers, offset, &mut self.bugs);
        assert(self.bugs@ =~= debuffed(l.bugs@, l.towers@, offset));
        move_bugs(&mut self.bugs, &self.cable, offset, state);
        handle_led(&mut self.towers, offset, &mut self.bugs);
        assert(self.towers@ =~= ticked_all(l.towers@, TowerType::Diode, DIODE_FRAMES));
        draw_leds(&mut self.tilemap, &self.towers);
        let ghost t1 = self.towers@;
        handle_capacitor(&mut self.towers, offset, &mut self.bugs, &mut self.bullets, &mut self.next_tag);
        assert(self.towers@ =~= ticked_all(t1, TowerType::Capacitor, CAPACITOR_FRAMES));
        assert(self.towers@.len() == l.towers@.len());
        assert(forall|k: int| 0 <= k < self.towers@.len() ==> (#[trigger] self.towers@[k]).cell == l.towers@[k].cell && self.towers@[k].tower.upgrade_factor == l.towers@[k].tower.upgrade_factor);
        handle_capacitor_bullet(&mut self.bugs, &mut self.bullets);
        let ghost pre = self.bugs@;
        let died = check_bug_health(&mut self.bugs);
        assert(bugs_ok(self.bugs@)) by {
            assert forall|k: int| 0 <= k < self.bugs@.len() implies bug_ok(#[trigger] self.bugs@[k]) by {
                lemma_living_ok(pre, k);
            }
        }
        let spawned = crate::wave::spawn_wave(self, state.round_running);
        (died, spawned)
    }
}

/// The tower a build makes: counters at rest, no upgrade, no money, and the
/// new level inside it.
pub open spec fn built_tower(t: TowerType, level_index: usize) -> TowerSprite {
    TowerSprite { tower_type: t, frame_counter: 0, upgrade_factor: 1, balance: 0, level_index }
}

/// Builds a tower on the current level: a new blue level with a cable drawn
/// from `seed` is made inside it, its marker is drawn, and it takes the
/// cell. Returns the new level's index; nothing happens when the game holds
/// as many levels as it may.
pub fn handle_build_tower(manager: &mut LevelManager, event: TowerBuildEvent, seed: usize) -> (r:
    Option<usize>)
    requires
        old(manager).wf(),
    ensures
        final(manager).wf(),
        final(manager).active == old(manager).active,
        r is Some <==> old(manager).levels@.len() < MAX_LEVELS,
        r is None ==> final(manager).levels@ == old(manager).levels@,
        r matches Some(i) ==> ({
            let a = old(manager).active as int;
            let l = old(manager).levels@[a];
            let n = final(manager).levels@[a];
            &&& i == old(manager).levels@.len()
            &&& final(manager).levels@.len() == i + 1
            &&& fresh_level(
                final(manager).levels@[i as int],
                LevelTheme::Blue,
                random_path_spec(seed as int),
                Some(a as usize),
                i as int,
            )
            &&& forall|k: int|
                0 <= k < old(manager).levels@.len() && k != a ==> #[trigger] final(manager).levels@[k] == old(manager).levels@[k]
            &&& n == Level { tilemap: n.tilemap, towers: n.towers, ..l }
            &&& n.tilemap.origin() == l.tilemap.origin()
            &&& n.tilemap@ == set_spec(
                l.tilemap@,
                TileAddress { x: event.position.0, y: event.position.1, layer: TOWER_LAYER },
                Some(marker_tile(event.tower)),
            )
            &&& forall|c: (i32, i32)|
                #[trigger] tower_at(n.towers@, c) == if c == event.position {
                    Some(built_tower(event.tower, i))
                } else {
                    tower_at(l.towers@, c)
                }
        }),
{
    if manager.levels.len() >= MAX_LEVELS {
        return None;
    }
    let a = manager.active;
    let path = random_path(seed);
    let index = match manager.add_level(LevelTheme::Blue, path, Some(a)) {
        Err(_) => {
            return None;
        },
        Ok(i) => i,
    };
    let ghost l1 = manager.levels@;
    assert(l1[a as int] == old(manager).levels@[a as int]);
    manager.levels[a].tilemap.set(
        TileAddress { x: event.position.0, y: event.position.1, layer: TOWER_LAYER },
        Some(tower_type_to_tile_type(&event.tower)),
    );
    insert_tower(
        &mut manager.levels[a].towers,
        event.position,
        TowerSprite {
            tower_type: event.tower,
            frame_counter: 0,
            upgrade_factor: 1,
            balance: 0,
            level_index: index,
        },
    );
    let ghost x = manager.levels@[a as int];
    assert(x.wf());
    assert(x.links_below(l1.len()));
    proof {
        lemma_replace_level(l1, a as int, x);
        assert(manager.levels@ =~= l1.update(a as int, x));
    }
    Some(index)
}

/// Deletes the tower on a cell of the current level and clears its marker;
/// the level inside it stays. Returns whether a tower was there.
pub fn delete_tower(manager: &mut LevelManager, cell: (i32, i32)) -> (r: bool)
    requires
        old(manager).wf(),
    ensures
        final(manager).wf(),
        final(manager).active == old(manager).active,
        ({
            let a = old(manager).active as int;
            let l = old(manager).levels@[a];
            let n = final(manager).levels@[a];
            &&& r == tower_at(l.towers@, cell).is_some()
            &&& final(manager).levels@.len() == old(manager).levels@.len()
            &&& final(manager).levels@ == old(manager).levels@.update(a, n)
            &&& n == Level { tilemap: n.tilemap, towers: n.towers, ..l }
            &&& n.tilemap.origin() == l.tilemap.origin()
            &&& n.tilemap@ == set_spec(
                l.tilemap@,
                TileAddress { x: cell.0, y: cell.1, layer: TOWER_LAYER },
                None,
            )
            &&& forall|c: (i32, i32)|
                #[trigger] tower_at(n.towers@, c) == if c == cell {
                    None
                } else {
                    tower_at(l.towers@, c)
                }
        }),
{
    let a = manager.active;
    let ghost l0 = manager.levels@;
    manager.levels[a].tilemap.set(TileAddress { x: cell.0, y: cell.1, layer: TOWER_LAYER }, None);
    let removed = remove_tower(&mut manager.levels[a].towers, cell);
    let ghost x = manager.levels@[a as int];
    assert(x.wf());
    assert(x.links_below(l0.len()));
    proof {
        lemma_replace_level(l0, a as int, x);
        assert(manager.levels@ =~= l0.update(a as int, x));
    }
    removed.is_some()
}

/// Money held within the range of `i64`.
pub open spec fn clamp_money(v: int) -> i64 {
    if v > i64::MAX {
        i64::MAX
    } else if v < i64::MIN {
        i64::MIN
    } else {
        v as i64
    }
}

/// What a donation moves: 100, or all the level has where that is less.
pub open spec fn donation(money: i64) -> int {
    if money >= 100 {
        100
    } else {
        money as int
    }
}

/// Amount a donation moves at most.
pub const DONATION: i64 = 100;

/// Moves money from the current level to the tower on `cell`: 100, or all
/// the level has where that is less, so that the level is left with no
/// debt. The level inside the tower then has the tower's balance to spend.
/// Returns whether a tower was there.
pub fn donate_to_tower(manager: &mut LevelManager, cell: (i32, i32)) -> (r: bool)
    requires
        old(manager).wf(),
    ensures
        final(manager).wf(),
        final(manager).active == old(manager).active,
        final(manager).levels@.len() == old(manager).levels@.len(),
        ({
            let a = old(manager).active as int;
            let l = old(manager).levels@[a];
            match tower_at(l.towers@, cell) {
                None => !r && final(manager).levels@ == old(manager).levels@,
                Some(t) => {
                    let d = donation(l.money);
                    let balance = clamp_money(t.balance + d);
                    let i = choose|i: int|
                        0 <= i < l.towers@.len() && (#[trigger] l.towers@[i]).cell == cell;
                    let c = t.level_index as int;
                    let n = final(manager).levels@[a];
                    &&& r
                    &&& l.money - d >= 0
                    &&& n == Level { money: n.money, towers: n.towers, ..l }
                    &&& n.towers@ == l.towers@.update(
                        i,
                        TowerEntry { tower: TowerSprite { balance, ..t }, ..l.towers@[i] },
                    )
                    &&& n.money == if c == a {
                        balance
                    } else {
                        (l.money - d) as i64
                    }
                    &&& c != a ==> final(manager).levels@[c] == Level {
                        money: balance,
                        ..old(manager).levels@[c]
                    }
                    &&& forall|j: int|
                        0 <= j < old(manager).levels@.len() && j != a && j != c ==> #[trigger] final(manager).levels@[j] == old(manager).levels@[j]
                },
            }
        }),
{
    let a = manager.active;
    let ghost l0 = manager.levels@;
    let i = match find_tower(&manager.levels[a].towers, cell) {
        None => {
            return false;
        },
        Some(i) => i,
    };
    proof {
        let j = choose|j: int|
            0 <= j < l0[a as int].towers@.len() && (#[trigger] l0[a as int].towers@[j]).cell == cell;
        assert(l0[a as int].towers@[j].cell == cell);
        assert(j == i);
    }
    let money = manager.levels[a].money;
    let d: i64 = if money >= DONATION {
        DONATION
    } else {
        money
    };
    let t = manager.levels[a].towers[i].tower;
    let b = t.balance as i128 + d as i128;
    let balance: i64 = if b > i64::MAX as i128 {
        i64::MAX
    } else if b < i64::MIN as i128 {
        i64::MIN
    } else {
        b as i64
    };
    manager.levels[a].money = money - d;
    manager.levels[a].towers[i].tower.balance = balance;
    let ghost x = manager.levels@[a as int];
    assert(x.wf()) by {
        assert(forall|k: int| 0 <= k < x.towers@.len() ==> (#[trigger] x.towers@[k]).cell == l0[a as int].towers@[k].cell);
    }
    assert(x.links_below(l0.len()));
    proof {
        lemma_replace_level(l0, a as int, x);
        assert(manager.levels@ =~= l0.update(a as int, x));
    }
    let ghost l1 = manager.levels@;
    let child = t.level_index;
    manager.levels[child].money = balance;
    proof {
        lemma_replace_level(l1, child as int, manager.levels@[child as int]);
        assert(manager.levels@ =~= l1.update(child as int, manager.levels@[child as int]));
    }
    true
}

/// Views another level: the tile to clear is cleared on the level being
/// left, and the way out is drawn on the level viewed where it has a parent.
/// Returns the event that clears the selection; an index past the last level
/// is ignored.
pub fn handle_level_switch(manager: &mut LevelManager, event: LevelSwitchEvent) -> (r: Option<
    SelectionEvent,
>)
    requires
        old(manager).wf(),
    ensures
        final(manager).wf(),
        final(manager).levels@.len() == old(manager).levels@.len(),
        event.index >= old(manager).levels@.len() ==> r.is_none() && final(manager).levels@ == old(manager).levels@ && final(manager).active == old(manager).active,
        event.index < old(manager).levels@.len() ==> ({
            let a = old(manager).active as int;
            let l = old(manager).levels@[a];
            let cleared = match event.deselect {
                Some(d) => set_spec(l.tilemap@, d, None),
                None => l.tilemap@,
            };
            let k = event.index as int;
            let mid = final(manager).levels@.update(a, final(manager).levels@[a]);
            &&& r == Some(SelectionEvent { deselected: None, selected: None })
            &&& final(manager).active == event.index
            &&& forall|j: int|
                0 <= j < old(manager).levels@.len() && j != a && j != k ==> #[trigger] final(manager).levels@[j] == old(manager).levels@[j]
            &&& final(manager).levels@[k] == Level {
                tilemap: final(manager).levels@[k].tilemap,
                ..old(manager).levels@[k]
            }
            &&& final(manager).levels@[a] == Level {
                tilemap: final(manager).levels@[a].tilemap,
                ..old(manager).levels@[a]
            }
            &&& (k != a ==> final(manager).levels@[a].tilemap@ == cleared)
            &&& final(manager).levels@[k].tilemap@ == if old(manager).levels@[k].parent is Some {
                button_spec(
                    if k == a {
                        cleared
                    } else {
                        old(manager).levels@[k].tilemap@
                    },
                    STEP_OUT_ROW,
                    step_out_tiles(),
                )
            } else if k == a {
                cleared
            } else {
                old(manager).levels@[k].tilemap@
            }
        }),
{
    if event.index >= manager.levels.len() {
        return None;
    }
    let a = manager.active;
    let ghost l0 = manager.levels@;
    match event.deselect {
        Some(d) => {
            manager.levels[a].tilemap.set(d, None);
        },
        None => {},
    }
    proof {
        lemma_replace_level(l0, a as int, manager.levels@[a as int]);
        assert(manager.levels@ =~= l0.update(a as int, manager.levels@[a as int]));
    }
    let ghost l1 = manager.levels@;
    manager.switch_view(event.index);
    let k = event.index;
    if manager.levels[k].parent.is_some() {
        show_step_out(&mut manager.levels[k].tilemap);
    }
    proof {
        lemma_replace_level(l1, k as int, manager.levels@[k as int]);
        assert(manager.levels@ =~= l1.update(k as int, manager.levels@[k as int]));
    }
    Some(SelectionEvent { deselected: None, selected: None })
}

/// Shows the continue button of the current level between rounds and hides
/// it while a round runs.
pub fn refresh_continue_button(manager: &mut LevelManager, running: bool)
    requires
        old(manager).wf(),
    ensures
        final(manager).wf(),
        final(manager).active == old(manager).active,
        only_tiles(old(manager).levels@, final(manager).levels@, old(manager).active as int),
        ({
            let l = old(manager).levels@[old(manager).active as int];
            final(manager).levels@[old(manager).active as int].tilemap@ == if running {
                crate::ui::continue_hidden(l.tilemap@)
            } else {
                crate::ui::continue_shown(l.tilemap@, l.parent is Some)
            }
        }),
{
    let a = manager.active;
    let ghost l0 = manager.levels@;
    if running {
        crate::ui::hide_continue_button(&mut manager.levels[a].tilemap);
    } else {
        let has_parent = manager.levels[a].parent.is_some();
        crate::ui::show_continue_button(&mut manager.levels[a].tilemap, has_parent);
    }
    proof {
        lemma_replace_level(l0, a as int, manager.levels@[a as int]);
        assert(manager.levels@ =~= l0.update(a as int, manager.levels@[a as int]));
    }
}

/// Lights and darkens the diodes of the current level.
pub fn led_tower_animation(manager: &mut LevelManager)
    requires
        old(manager).wf(),
    ensures
        final(manager).wf(),
        final(manager).active == old(manager).active,
        only_tiles(old(manager).levels@, final(manager).levels@, old(manager).active as int),
        ({
            let l = old(manager).levels@[old(manager).active as int];
            final(manager).levels@[old(manager).active as int].tilemap@ == leds_drawn(
                l.tilemap@,
                l.towers@,
                l.towers@.len(),
            )
        }),
{
    let a = manager.active;
    let ghost l0 = manager.levels@;
    manager.levels[a].animate_leds();
    proof {
        lemma_replace_level(l0, a as int, manager.levels@[a as int]);
        assert(manager.levels@ =~= l0.update(a as int, manager.levels@[a as int]));
    }
}

/// Plays one frame of the current level (see `frame_done`); returns how
/// many bugs died and whether a bug came in.
pub fn play_frame(manager: &mut LevelManager, state: &mut GameState) -> (r: (usize, bool))
    requires
        old(manager).wf(),
    ensures
        final(manager).wf(),
        final(manager).active == old(manager).active,
        final(manager).levels@ == old(manager).levels@.update(
            old(manager).active as int,
            final(manager).levels@[old(manager).active as int],
        ),
        frame_done(
            old(manager).levels@[old(manager).active as int],
            final(manager).levels@[old(manager).active as int],
            *old(state),
            *final(state),
            r.0,
            r.1,
        ),
{
    let a = manager.active;
    let ghost l0 = manager.levels@;
    let r = manager.levels[a].frame(state);
    let ghost x = manager.levels@[a as int];
    assert(x.links_below(l0.len())) by {
        assert(l0[a as int].links_below(l0.len()));
        assert forall|i: int| 0 <= i < x.towers@.len() implies (#[trigger] x.towers@[i]).tower.level_index
            < l0.len() by {
            assert(x.towers@[i].tower.level_index == l0[a as int].towers@[i].tower.level_index);
        }
    }
    proof {
        lemma_replace_level(l0, a as int, x);
        assert(manager.levels@ =~= l0.update(a as int, x));
    }
    r
}

} // verus!
