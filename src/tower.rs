//! Towers: their kinds, their build-menu slots, and where they may stand.
use vstd::prelude::*;
use crate::grid::{TileAddress, WorldPos};
use crate::motion::in_world;
use crate::tilemap::{Tilemap, TileType};
use crate::cable::{CABLE_END_LAYER, CABLE_LAYER};

verus! {

/// The kinds of tower a player can build.
#[derive(Clone, Copy, Debug, PartialEq, Eq, Structural)]
pub enum TowerType {
    Resistor,
    Capacitor,
    Diode,
}

/// A placed tower.
#[derive(Clone, Copy, Debug, PartialEq, Eq, Structural)]
pub struct TowerSprite {
    pub tower_type: TowerType,
    /// Frames since the tower last acted, modulo its period.
    pub frame_counter: u32,
    /// Multiplies the tower's effect; raised by rounds won in its level.
    pub upgrade_factor: u32,
    /// Money donated to the tower, which funds its level.
    pub balance: i64,
    /// The level that lies inside the tower.
    pub level_index: usize,
}

/// Layer of the towers' markers.
pub const TOWER_LAYER: i32 = 4;

/// Layer of the build menu's tiles.
pub const MENU_LAYER: i32 = 0;

/// Frames between two flashes of a diode.
pub const DIODE_FRAMES: u32 = 60;

/// Frames between two shots of a capacitor.
pub const CAPACITOR_FRAMES: u32 = 240;

/// The tower kinds that may be built on `cell`: none where a cable end or a
/// tower is already there, a resistor on the cable, capacitor and diode
/// elsewhere.
pub open spec fn eligible_types(m: Map<TileAddress, TileType>, cell: (i32, i32)) -> Seq<TowerType> {
    if m.contains_key(TileAddress { x: cell.0, y: cell.1, layer: CABLE_END_LAYER })
        || m.contains_key(TileAddress { x: cell.0, y: cell.1, layer: TOWER_LAYER }) {
        Seq::empty()
    } else if m.contains_key(TileAddress { x: cell.0, y: cell.1, layer: CABLE_LAYER }) {
        seq![TowerType::Resistor]
    } else {
        seq![TowerType::Capacitor, TowerType::Diode]
    }
}

/// The tower kinds that may be built on a cell.
pub fn tile_to_tower_types(tilemap: &Tilemap, position: (i32, i32)) -> (r: Vec<TowerType>)
    requires
        tilemap.wf(),
    ensures
        r@ == eligible_types(tilemap@, position),
{
    if tilemap.is_occupied(TileAddress { x: position.0, y: position.1, layer: CABLE_END_LAYER })
        || tilemap.is_occupied(TileAddress { x: position.0, y: position.1, layer: TOWER_LAYER }) {
        let r: Vec<TowerType> = Vec::new();
        assert(r@ =~= eligible_types(tilemap@, position));
        return r;
    }
    if tilemap.is_occupied(TileAddress { x: position.0, y: position.1, layer: CABLE_LAYER }) {
        let r = vec![TowerType::Resistor];
        assert(r@ =~= eligible_types(tilemap@, position));
        return r;
    }
    let r = vec![TowerType::Capacitor, TowerType::Diode];
    assert(r@ =~= eligible_types(tilemap@, position));
    r
}

/// The build-menu cell of each tower kind.
pub open spec fn menu_cell(t: TowerType) -> (i32, i32) {
    match t {
        TowerType::Resistor => (11, -1i32),
        TowerType::Capacitor => (12, 0),
        TowerType::Diode => (11, 0),
    }
}

/// The build-menu cell of a tower kind.
pub fn tower_type_to_tile(tower_type: &TowerType) -> (r: (i32, i32))
    ensures
        r == menu_cell(*tower_type),
{
    match tower_type {
        TowerType::Resistor => (11, -1),
        TowerType::Capacitor => (12, 0),
        TowerType::Diode => (11, 0),
    }
}

/// The tile that marks a tower of each kind.
pub open spec fn marker_tile(t: TowerType) -> TileType {
    match t {
        TowerType::Resistor => TileType::ResistorTower,
        TowerType::Capacitor => TileType::CapacitorTower,
        TowerType::Diode => TileType::LedOff,
    }
}

/// The tile that marks a tower of a kind.
pub fn tower_type_to_tile_type(tower_type: &TowerType) -> (r: TileType)
    ensures
        r == marker_tile(*tower_type),
{
    match tower_type {
        TowerType::Resistor => TileType::ResistorTower,
        TowerType::Capacitor => TileType::CapacitorTower,
        TowerType::Diode => TileType::LedOff,
    }
}

/// A cable body with nothing above it takes a resistor only; an empty cell
/// takes a capacitor or a diode; a cable end or a tower takes nothing.
pub proof fn lemma_build_eligibility(m: Map<TileAddress, TileType>, cell: (i32, i32))
    ensures
        m.contains_key(TileAddress { x: cell.0, y: cell.1, layer: CABLE_LAYER }) && !m.contains_key(
            TileAddress { x: cell.0, y: cell.1, layer: CABLE_END_LAYER },
        ) && !m.contains_key(TileAddress { x: cell.0, y: cell.1, layer: TOWER_LAYER })
            ==> eligible_types(m, cell) == seq![TowerType::Resistor],
        !m.contains_key(TileAddress { x: cell.0, y: cell.1, layer: CABLE_LAYER }) && !m.contains_key(
            TileAddress { x: cell.0, y: cell.1, layer: CABLE_END_LAYER },
        ) && !m.contains_key(TileAddress { x: cell.0, y: cell.1, layer: TOWER_LAYER })
            ==> eligible_types(m, cell) == seq![TowerType::Capacitor, TowerType::Diode],
        m.contains_key(TileAddress { x: cell.0, y: cell.1, layer: CABLE_END_LAYER })
            || m.contains_key(TileAddress { x: cell.0, y: cell.1, layer: TOWER_LAYER })
            ==> eligible_types(m, cell).len() == 0,
{
}

/// A tower and the cell it stands on.
#[derive(Clone, Copy, Debug)]
pub struct TowerEntry {
    pub cell: (i32, i32),
    pub tower: TowerSprite,
}

/// At most one tower per cell.
pub open spec fn unique_cells(s: Seq<TowerEntry>) -> bool {
    forall|i: int, j: int|
        0 <= i < s.len() && 0 <= j < s.len() && i != j ==> (#[trigger] s[i]).cell != (
        #[trigger] s[j]).cell
}

/// Whether a tower stands on a cell.
pub open spec fn has_tower(s: Seq<TowerEntry>, cell: (i32, i32)) -> bool {
    exists|i: int| 0 <= i < s.len() && (#[trigger] s[i]).cell == cell
}

/// The tower standing on a cell, if any.
pub open spec fn tower_at(s: Seq<TowerEntry>, cell: (i32, i32)) -> Option<TowerSprite> {
    if has_tower(s, cell) {
        Some(s[choose|i: int| 0 <= i < s.len() && (#[trigger] s[i]).cell == cell].tower)
    } else {
        None
    }
}

/// The tower at an entry's cell is that entry's tower.
pub proof fn lemma_tower_at(s: Seq<TowerEntry>, i: int)
    requires
        unique_cells(s),
        0 <= i < s.len(),
    ensures
        tower_at(s, s[i].cell) == Some(s[i].tower),
{
    let c = s[i].cell;
    assert(has_tower(s, c));
    let j = choose|j: int| 0 <= j < s.len() && (#[trigger] s[j]).cell == c;
    assert(i == j);
}

/// The index of the tower on a cell, if any.
pub fn find_tower(towers: &Vec<TowerEntry>, cell: (i32, i32)) -> (r: Option<usize>)
    requires
        unique_cells(towers@),
    ensures
        match r {
            Some(i) => i < towers@.len() && towers@[i as int].cell == cell && tower_at(towers@, cell)
                == Some(towers@[i as int].tower),
            None => !has_tower(towers@, cell) && tower_at(towers@, cell).is_none(),
        },
{
    let mut i: usize = 0;
    while i < towers.len()
        invariant
            i <= towers@.len(),
            unique_cells(towers@),
            forall|j: int| 0 <= j < i ==> (#[trigger] towers@[j]).cell != cell,
        decreases towers@.len() - i,
    {
        if towers[i].cell.0 == cell.0 && towers[i].cell.1 == cell.1 {
            proof {
                lemma_tower_at(towers@, i as int);
            }
            return Some(i);
        }
        i = i + 1;
    }
    None
}

/// A capacitor's shot, homing on the bug that carries its tag.
#[derive(Clone, Copy, Debug, PartialEq, Eq, Structural)]
pub struct CapacitorBullet {
    pub position: WorldPos,
    pub id: u64,
    pub damage: i64,
}

/// Every shot lies within the world and does no negative damage.
pub open spec fn bullets_ok(s: Seq<CapacitorBullet>) -> bool {
    forall|i: int| 0 <= i < s.len() ==> in_world((#[trigger] s[i]).position) && s[i].damage >= 0
}

/// Puts a tower on a cell, in place of any tower there; returns the index
/// of the tower it replaced, if any.
pub fn insert_tower(towers: &mut Vec<TowerEntry>, cell: (i32, i32), tower: TowerSprite) -> (r: Option<usize>)
    requires
        unique_cells(old(towers)@),
    ensures
        unique_cells(final(towers)@),
        forall|c: (i32, i32)|
            #[trigger] tower_at(final(towers)@, c) == if c == cell {
                Some(tower)
            } else {
                tower_at(old(towers)@, c)
            },
        match r {
            Some(i) => i < old(towers)@.len() && final(towers)@ == old(towers)@.update(i as int, TowerEntry { cell, tower }),
            None => final(towers)@ == old(towers)@.push(TowerEntry { cell, tower }),
        },
{
    let ghost s0 = towers@;
    match find_tower(towers, cell) {
        Some(i) => {
            towers.set(i, TowerEntry { cell, tower });
            let ghost s1 = towers@;
            assert forall|c: (i32, i32)| #[trigger]
                tower_at(s1, c) == if c == cell {
                    Some(tower)
                } else {
                    tower_at(s0, c)
                } by {
                if c == cell {
                    lemma_tower_at(s1, i as int);
                } else if has_tower(s0, c) {
                    let j = choose|j: int| 0 <= j < s0.len() && (#[trigger] s0[j]).cell == c;
                    lemma_tower_at(s0, j);
                    lemma_tower_at(s1, j);
                } else if has_tower(s1, c) {
                    let j = choose|j: int| 0 <= j < s1.len() && (#[trigger] s1[j]).cell == c;
                    assert(s0[j].cell == c);
                }
            }
            Some(i)
        },
        None => {
            towers.push(TowerEntry { cell, tower });
            let ghost s1 = towers@;
            assert forall|c: (i32, i32)| #[trigger]
                tower_at(s1, c) == if c == cell {
                    Some(tower)
                } else {
                    tower_at(s0, c)
                } by {
                if c == cell {
                    lemma_tower_at(s1, s0.len() as int);
                } else if has_tower(s0, c) {
                    let j = choose|j: int| 0 <= j < s0.len() && (#[trigger] s0[j]).cell == c;
                    lemma_tower_at(s0, j);
                    lemma_tower_at(s1, j);
                } else if has_tower(s1, c) {
                    let j = choose|j: int| 0 <= j < s1.len() && (#[trigger] s1[j]).cell == c;
                    assert(s0[j].cell == c);
                }
            }
            None
        },
    }
}

/// Takes the tower off a cell, if one stands there; returns the index it had.
pub fn remove_tower(towers: &mut Vec<TowerEntry>, cell: (i32, i32)) -> (r: Option<usize>)
    requires
        unique_cells(old(towers)@),
    ensures
        unique_cells(final(towers)@),
        forall|c: (i32, i32)|
            #[trigger] tower_at(final(towers)@, c) == if c == cell {
                None
            } else {
                tower_at(old(towers)@, c)
            },
        r is Some <==> tower_at(old(towers)@, cell).is_some(),
        match r {
            Some(i) => i < old(towers)@.len() && final(towers)@ == old(towers)@.remove(i as int),
            None => final(towers)@ == old(towers)@,
        },
{
    let ghost s0 = towers@;
    match find_tower(towers, cell) {
        Some(i) => {
            towers.remove(i);
            let ghost s1 = towers@;
            assert(s1 == s0.remove(i as int));
            assert forall|c: (i32, i32)| #[trigger]
                tower_at(s1, c) == if c == cell {
                    None
                } else {
                    tower_at(s0, c)
                } by {
                if has_tower(s1, c) {
                    let j = choose|j: int| 0 <= j < s1.len() && (#[trigger] s1[j]).cell == c;
                    lemma_tower_at(s1, j);
                    if j < i {
                        lemma_tower_at(s0, j);
                    } else {
                        lemma_tower_at(s0, j + 1);
                    }
                } else if c != cell && has_tower(s0, c) {
                    let j = choose|j: int| 0 <= j < s0.len() && (#[trigger] s0[j]).cell == c;
                    if j < i {
                        assert(s1[j].cell == c);
                    } else {
                        assert(s1[j - 1].cell == c);
                    }
                }
            }
            Some(i)
        },
        None => None,
    }
}

} // verus!
