//! Levels and the manager that holds them all.
use vstd::prelude::*;
use crate::grid::{WorldPos, offset_ok};
use crate::tilemap::Tilemap;
use crate::cable::{CableError, set_cable, check_cable, valid_cable, lay_cable, first_broken, cable_piece, at};
use crate::tower::{TowerEntry, unique_cells, bullets_ok, CapacitorBullet};
use crate::bug::{BugSprite, BugType, bugs_ok};

verus! {

/// The background a level is drawn on.
#[derive(Clone, Copy, Debug, PartialEq, Eq, Structural)]
pub enum LevelTheme {
    Black,
    Blue,
    Green,
    Red,
}

/// One level: its tiles and cable, its economy, its round, and what lives on it.
pub struct Level {
    pub tilemap: Tilemap,
    /// The cells bugs follow, from where they come in to where they get through.
    pub cable: Vec<(i32, i32)>,
    pub theme: LevelTheme,
    pub money: i64,
    pub towers: Vec<TowerEntry>,
    /// The level whose tower holds this one.
    pub parent: Option<usize>,
    pub round: u32,
    /// Bugs still to send this round; the last one goes first.
    pub bug_queue: Vec<BugType>,
    /// Frames since the last bug was sent, modulo `bug_queue_speed`.
    pub bug_frames: u32,
    /// Frames between two bugs.
    pub bug_queue_speed: u32,
    pub bugs: Vec<BugSprite>,
    pub bullets: Vec<CapacitorBullet>,
    /// The tag the next capacitor shot gets.
    pub next_tag: u64,
}

/// Most levels a game may hold.
pub const MAX_LEVELS: usize = 100_000_000;

/// How far apart levels are drawn, in world units.
pub const LEVEL_SPACING: i64 = 2_000_000;

impl Level {
    /// Tiles, cable, pacing, towers, bugs and shots all in order.
    pub open spec fn wf(&self) -> bool {
        &&& self.tilemap.wf()
        &&& offset_ok(self.tilemap.origin())
        &&& self.cable@.len() > 0
        &&& self.bug_queue_speed >= 1
        &&& unique_cells(self.towers@)
        &&& forall|i: int|
            0 <= i < self.towers@.len() ==> (#[trigger] self.towers@[i]).tower.upgrade_factor >= 1
        &&& bugs_ok(self.bugs@)
        &&& bullets_ok(self.bullets@)
    }

    /// Every level this one names lies below `n`.
    pub open spec fn links_below(&self, n: nat) -> bool {
        &&& (self.parent matches Some(p) ==> p < n)
        &&& forall|i: int|
            0 <= i < self.towers@.len() ==> (#[trigger] self.towers@[i]).tower.level_index < n
    }

    /// Lays the level's cable on its tiles.
    pub fn setup(&mut self)
        requires
            old(self).tilemap.wf(),
            valid_cable(old(self).cable@),
        ensures
            final(self).tilemap.wf(),
            final(self).tilemap.origin() == old(self).tilemap.origin(),
            *final(self) == (Level { tilemap: final(self).tilemap, ..*old(self) }),
            final(self).tilemap@ == lay_cable(
                old(self).tilemap@,
                old(self).cable@,
                old(self).cable@.len(),
            ),
    {
        set_cable(&mut self.tilemap, &self.cable)
    }

    /// Where the level is drawn.
    pub fn offset(&self) -> (r: WorldPos)
        ensures
            r == self.tilemap.origin(),
    {
        self.tilemap.offset()
    }
}

/// A level just made: its cable laid on empty tiles, nothing else on it.
pub open spec fn fresh_level(
    l: Level,
    theme: LevelTheme,
    cable: Seq<(i32, i32)>,
    parent: Option<usize>,
    index: int,
) -> bool {
    &&& l.wf()
    &&& l.tilemap@ == lay_cable(Map::empty(), cable, cable.len())
    &&& l.tilemap.origin() == (WorldPos { x: (LEVEL_SPACING * index) as i64, y: 0 })
    &&& l.cable@ == cable
    &&& l.theme == theme
    &&& l.money == 0
    &&& l.towers@.len() == 0
    &&& l.parent == parent
    &&& l.round == 0
    &&& l.bug_queue@.len() == 0
    &&& l.bug_frames == 0
    &&& l.bug_queue_speed == 1
    &&& l.bugs@.len() == 0
    &&& l.bullets@.len() == 0
}

fn make_level(theme: LevelTheme, cable: Vec<(i32, i32)>, parent: Option<usize>, index: usize) -> (r:
    Result<Level, CableError>)
    requires
        index < MAX_LEVELS,
    ensures
        r is Ok <==> valid_cable(cable@),
        r matches Ok(l) ==> fresh_level(l, theme, cable@, parent, index as int),
        r matches Err(e) ==> first_broken(cable@, e.index as int),
{
    match check_cable(&cable) {
        Err(e) => {
            return Err(e);
        },
        Ok(()) => {},
    }
    let offset = WorldPos { x: LEVEL_SPACING * index as i64, y: 0 };
    let mut level = Level {
        tilemap: Tilemap::new(offset),
        cable,
        theme,
        money: 0,
        towers: Vec::new(),
        parent,
        round: 0,
        bug_queue: Vec::new(),
        bug_frames: 0,
        bug_queue_speed: 1,
        bugs: Vec::new(),
        bullets: Vec::new(),
        next_tag: 0,
    };
    level.setup();
    Ok(level)
}

/// Levels that are each well formed, name only levels that exist, and come
/// after their parents.
pub open spec fn levels_wf(levels: Seq<Level>) -> bool {
    &&& levels.len() <= MAX_LEVELS
    &&& forall|l: int|
        0 <= l < levels.len() ==> (#[trigger] levels[l]).wf() && levels[l].links_below(levels.len())
            && (levels[l].parent matches Some(p) ==> p < l)
}

/// Putting in place of a level one that is well formed and names the same
/// levels keeps the whole well formed.
pub proof fn lemma_replace_level(levels: Seq<Level>, a: int, x: Level)
    requires
        levels_wf(levels),
        0 <= a < levels.len(),
        x.wf(),
        x.links_below(levels.len()),
        x.parent == levels[a].parent,
    ensures
        levels_wf(levels.update(a, x)),
{
    let n = levels.update(a, x);
    assert forall|l: int| 0 <= l < n.len() implies (#[trigger] n[l]).wf() && n[l].links_below(
        n.len(),
    ) && (n[l].parent matches Some(p) ==> p < l) by {
        if l != a {
            assert(n[l] == levels[l]);
        }
    }
}

/// Two states of a level with the same tiles, cable, theme and parent.
pub open spec fn same_ground(a: Level, b: Level) -> bool {
    &&& a.tilemap@ == b.tilemap@
    &&& a.tilemap.origin() == b.tilemap.origin()
    &&& a.tilemap.changes() == b.tilemap.changes()
    &&& a.cable@ == b.cable@
    &&& a.theme == b.theme
    &&& a.parent == b.parent
}

/// All levels of a game, by index, and the one being viewed.
pub struct LevelManager {
    pub levels: Vec<Level>,
    pub active: usize,
}

impl LevelManager {
    /// The viewed level exists, and all levels are well formed.
    pub open spec fn wf(&self) -> bool {
        &&& self.active < self.levels@.len()
        &&& levels_wf(self.levels@)
    }

    /// A game whose only level has the given cable.
    pub fn new(theme: LevelTheme, cable: Vec<(i32, i32)>) -> (r: Result<LevelManager, CableError>)
        ensures
            r is Ok <==> valid_cable(cable@),
            r matches Ok(m) ==> m.wf() && m.active == 0 && m.levels@.len() == 1 && fresh_level(
                m.levels@[0],
                theme,
                cable@,
                None,
                0,
            ),
            r matches Err(e) ==> first_broken(cable@, e.index as int),
    {
        match make_level(theme, cable, None, 0) {
            Err(e) => Err(e),
            Ok(level) => {
                let mut levels = Vec::new();
                levels.push(level);
                Ok(LevelManager { levels, active: 0 })
            },
        }
    }

    /// Makes a level with the given cable, drawn apart from all others, and
    /// returns its index; a path that is not a cable is refused.
    pub fn add_level(&mut self, theme: LevelTheme, cable: Vec<(i32, i32)>, parent: Option<usize>) -> (r:
        Result<usize, CableError>)
        requires
            old(self).wf(),
            old(self).levels@.len() < MAX_LEVELS,
            parent matches Some(p) ==> p < old(self).levels@.len(),
        ensures
            final(self).wf(),
            final(self).active == old(self).active,
            r is Ok <==> valid_cable(cable@),
            r matches Ok(i) ==> i == old(self).levels@.len() && final(self).levels@.len() == i + 1
                && final(self).levels@.take(i as int) == old(self).levels@ && fresh_level(
                final(self).levels@[i as int],
                theme,
                cable@,
                parent,
                i as int,
            ),
            r matches Err(e) ==> first_broken(cable@, e.index as int) && final(self).levels@ == old(self).levels@,
    {
        let index = self.levels.len();
        match make_level(theme, cable, parent, index) {
            Err(e) => Err(e),
            Ok(level) => {
                let ghost l0 = self.levels@;
                self.levels.push(level);
                assert(self.levels@.take(index as int) =~= l0);
                assert forall|l: int| 0 <= l < self.levels@.len() implies (
                #[trigger] self.levels@[l]).wf() && self.levels@[l].links_below(
                    self.levels@.len(),
                ) && (self.levels@[l].parent matches Some(p) ==> p < l) by {
                    if l < index {
                        assert(self.levels@[l] == l0[l]);
                        assert(l0[l].links_below(l0.len()));
                    }
                }
                Ok(index)
            },
        }
    }

    /// Views another level.
    pub fn switch_view(&mut self, index: usize)
        requires
            old(self).wf(),
            index < old(self).levels@.len(),
        ensures
            final(self).wf(),
            final(self).active == index,
            final(self).levels@ == old(self).levels@,
    {
        self.active = index;
    }

    /// The level being viewed.
    pub fn get_current_level(&self) -> (r: &Level)
        requires
            self.wf(),
        ensures
            *r == self.levels@[self.active as int],
    {
        &self.levels[self.active]
    }

    /// The level being viewed, to change; the caller keeps it well formed.
    pub fn get_current_level_mut(&mut self) -> (r: &mut Level)
        requires
            old(self).wf(),
        ensures
            *r == old(self).levels@[old(self).active as int],
            final(self).active == old(self).active,
            final(self).levels@ == old(self).levels@.update(old(self).active as int, *final(r)),
    {
        &mut self.levels[self.active]
    }

    /// Where the level being viewed is drawn.
    pub fn current_offset(&self) -> (r: WorldPos)
        requires
            self.wf(),
        ensures
            r == self.levels@[self.active as int].tilemap.origin(),
    {
        self.levels[self.active].offset()
    }

    /// The index after the active one, wrapping round to the first level.
    pub fn next_index(&self) -> (r: usize)
        requires
            self.wf(),
        ensures
            r == (self.active + 1) % (self.levels@.len() as int),
    {
        (self.active + 1) % self.levels.len()
    }
}

/// The cable of the first level.
pub open spec fn main_cable_spec() -> Seq<(i32, i32)> {
    seq![
        at(-6, 2), at(-5, 2), at(-4, 2), at(-3, 2), at(-2, 2), at(-1, 2), at(0, 2), at(1, 2),
        at(2, 2), at(3, 2), at(4, 2), at(5, 2), at(6, 2), at(6, 3), at(5, 3), at(4, 3),
        at(3, 3), at(2, 3), at(1, 3), at(0, 3),
    ]
}

proof fn lemma_main_cable_valid()
    ensures
        valid_cable(main_cable_spec()),
{
    let p = main_cable_spec();
    assert forall|i: int| 0 <= i < p.len() implies (#[trigger] cable_piece(p, i)).is_some() by {
        if i == 0 {
            assert(cable_piece(p, 0).is_some());
        } else if i == 1 {
            assert(cable_piece(p, 1).is_some());
        } else if i == 2 {
            assert(cable_piece(p, 2).is_some());
        } else if i == 3 {
            assert(cable_piece(p, 3).is_some());
        } else if i == 4 {
            assert(cable_piece(p, 4).is_some());
        } else if i == 5 {
            assert(cable_piece(p, 5).is_some());
        } else if i == 6 {
            assert(cable_piece(p, 6).is_some());
        } else if i == 7 {
            assert(cable_piece(p, 7).is_some());
        } else if i == 8 {
            assert(cable_piece(p, 8).is_some());
        } else if i == 9 {
            assert(cable_piece(p, 9).is_some());
        } else if i == 10 {
            assert(cable_piece(p, 10).is_some());
        } else if i == 11 {
            assert(cable_piece(p, 11).is_some());
        } else if i == 12 {
            assert(cable_piece(p, 12).is_some());
        } else if i == 13 {
            assert(cable_piece(p, 13).is_some());
        } else if i == 14 {
            assert(cable_piece(p, 14).is_some());
        } else if i == 15 {
            assert(cable_piece(p, 15).is_some());
        } else if i == 16 {
            assert(cable_piece(p, 16).is_some());
        } else if i == 17 {
            assert(cable_piece(p, 17).is_some());
        } else if i == 18 {
            assert(cable_piece(p, 18).is_some());
        } else if i == 19 {
            assert(cable_piece(p, 19).is_some());
        }
    }
}

/// The cable of the first level.
pub fn main_cable() -> (r: Vec<(i32, i32)>)
    ensures
        r@ == main_cable_spec(),
{
    let r = vec![
        (-6, 2), (-5, 2), (-4, 2), (-3, 2), (-2, 2), (-1, 2), (0, 2), (1, 2), (2, 2), (3, 2),
        (4, 2), (5, 2), (6, 2), (6, 3), (5, 3), (4, 3), (3, 3), (2, 3), (1, 3), (0, 3),
    ];
    assert(r@ =~= main_cable_spec());
    r
}

/// A new game: one green level holding the main cable.
pub fn setup_main_level() -> (r: LevelManager)
    ensures
        r.wf(),
        r.active == 0,
        r.levels@.len() == 1,
        fresh_level(r.levels@[0], LevelTheme::Green, main_cable_spec(), None, 0),
{
    let cable = main_cable();
    proof {
        lemma_main_cable_valid();
    }
    LevelManager::new(LevelTheme::Green, cable).unwrap()
}

} // verus!
