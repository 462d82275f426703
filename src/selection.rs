//! The input state machine: clicks on cells become selections and events.
use vstd::prelude::*;
use crate::grid::TileAddress;
use crate::tilemap::{Tilemap, TileType};
use crate::tower::{
    TowerType,
    TowerEntry,
    eligible_types,
    menu_cell,
    tile_to_tower_types,
    tower_type_to_tile,
    tower_at,
    unique_cells,
    find_tower,
};
use crate::ui::{
    in_zone,
    in_zone_spec,
    DELETE_ROW,
    DONATE_ROW,
    RECURSE_ROW,
    STEP_OUT_ROW,
    CONTINUE_ROW,
    PLAYFIELD_RIGHT,
};

verus! {

/// Layer of the selection marker.
pub const SELECTION_LAYER: i32 = 5;

/// The selected tile, if any.
#[derive(Clone, Copy, Debug, PartialEq, Eq, Structural)]
pub struct TileSelection {
    pub tile: Option<TileAddress>,
}

/// The selection moved: the old tile, if any, lost it and the new one, if
/// any, got it.
#[derive(Clone, Copy, Debug, PartialEq, Eq, Structural)]
pub struct SelectionEvent {
    pub deselected: Option<TileAddress>,
    pub selected: Option<TileAddress>,
}

/// A tower of a kind is to be built on a cell.
#[derive(Clone, Copy, Debug)]
pub struct TowerBuildEvent {
    pub tower: TowerType,
    pub position: (i32, i32),
}

/// Another level is to be viewed; `deselect` is a tile to clear on the level
/// being left.
#[derive(Clone, Copy, Debug, PartialEq, Eq, Structural)]
pub struct LevelSwitchEvent {
    pub index: usize,
    pub deselect: Option<TileAddress>,
}

/// What a click asks for.
#[derive(Clone, Copy, Debug)]
pub enum UiEvent {
    Selection(SelectionEvent),
    TowerBuild(TowerBuildEvent),
    LevelSwitch(LevelSwitchEvent),
    /// Donate to the tower on a cell.
    TowerDonate((i32, i32)),
    /// Delete the tower on a cell.
    TowerDelete((i32, i32)),
    /// Start the next round.
    Continue,
}

/// The first kind in `kinds` whose build-menu cell is `c`.
pub open spec fn menu_hit(kinds: Seq<TowerType>, c: (i32, i32)) -> Option<TowerType>
    decreases kinds.len(),
{
    if kinds.len() == 0 {
        None
    } else if menu_cell(kinds[0]) == c {
        Some(kinds[0])
    } else {
        menu_hit(kinds.drop_first(), c)
    }
}

/// The events of a click on the strip before any selection matters: the way
/// out where the level has a parent, and the continue button between rounds.
pub open spec fn strip_events(hovered: (i32, i32), parent: Option<usize>, running: bool) -> Seq<
    UiEvent,
> {
    let out = if in_zone_spec(hovered, STEP_OUT_ROW) && parent is Some {
        seq![UiEvent::LevelSwitch(LevelSwitchEvent { index: parent->0, deselect: None })]
    } else {
        Seq::empty()
    };
    if in_zone_spec(hovered, CONTINUE_ROW) && !running {
        out.push(UiEvent::Continue)
    } else {
        out
    }
}

/// The events for the selected tower's panel.
pub open spec fn panel_events(
    towers: Seq<TowerEntry>,
    prev: TileAddress,
    hovered: (i32, i32),
) -> Seq<UiEvent> {
    let cell = (prev.x, prev.y);
    match tower_at(towers, cell) {
        None => Seq::empty(),
        Some(t) => if in_zone_spec(hovered, DELETE_ROW) {
            seq![UiEvent::TowerDelete(cell)]
        } else if in_zone_spec(hovered, DONATE_ROW) {
            seq![UiEvent::TowerDonate(cell)]
        } else if in_zone_spec(hovered, RECURSE_ROW) {
            seq![
                UiEvent::LevelSwitch(LevelSwitchEvent { index: t.level_index, deselect: Some(prev) }),
            ]
        } else {
            Seq::empty()
        },
    }
}

/// The selection and the events after a click on `hovered`.
///
/// On the playfield a click toggles the selection of the clicked cell: the
/// same cell again clears it, another cell takes it over. On the strip a
/// click ends any selection; it builds the kind whose menu entry was hit,
/// or works the selected tower's panel.
pub open spec fn click(
    tiles: Map<TileAddress, TileType>,
    towers: Seq<TowerEntry>,
    parent: Option<usize>,
    selected: Option<TileAddress>,
    hovered: (i32, i32),
    running: bool,
) -> (Option<TileAddress>, Seq<UiEvent>) {
    if hovered.0 > PLAYFIELD_RIGHT {
        let first = strip_events(hovered, parent, running);
        match selected {
            None => (None, first),
            Some(prev) => {
                let cell = (prev.x, prev.y);
                let ended = first.push(
                    UiEvent::Selection(SelectionEvent { deselected: selected, selected: None }),
                );
                match menu_hit(eligible_types(tiles, cell), hovered) {
                    Some(k) => (
                        None,
                        ended.push(UiEvent::TowerBuild(TowerBuildEvent { tower: k, position: cell })),
                    ),
                    None => (None, ended + panel_events(towers, prev, hovered)),
                }
            },
        }
    } else {
        let tile = TileAddress { x: hovered.0, y: hovered.1, layer: SELECTION_LAYER };
        if selected == Some(tile) {
            (None, seq![UiEvent::Selection(SelectionEvent { deselected: selected, selected: None })])
        } else {
            (
                Some(tile),
                seq![
                    UiEvent::Selection(SelectionEvent { deselected: selected, selected: Some(tile) }),
                ],
            )
        }
    }
}

/// The first kind in `kinds` whose build-menu cell is `c`.
fn find_menu_hit(kinds: &Vec<TowerType>, c: (i32, i32)) -> (r: Option<TowerType>)
    ensures
        r == menu_hit(kinds@, c),
{
    let mut i: usize = 0;
    assert(kinds@.skip(0) =~= kinds@);
    while i < kinds.len()
        invariant
            i <= kinds@.len(),
            menu_hit(kinds@, c) == menu_hit(kinds@.skip(i as int), c),
        decreases kinds@.len() - i,
    {
        let k = kinds[i];
        let m = tower_type_to_tile(&k);
        assert(kinds@.skip(i as int)[0] == k);
        if m.0 == c.0 && m.1 == c.1 {
            return Some(k);
        }
        assert(kinds@.skip(i as int).drop_first() =~= kinds@.skip(i + 1));
        i = i + 1;
    }
    assert(kinds@.skip(i as int).len() == 0);
    None
}

/// The kind whose build-menu entry is under the pointer, for the selected
/// cell, if any.
pub fn hovered_option(tilemap: &Tilemap, selection: &TileSelection, hovered: (i32, i32)) -> (r:
    Option<TowerType>)
    requires
        tilemap.wf(),
    ensures
        r == match selection.tile {
            None => None,
            Some(a) => menu_hit(eligible_types(tilemap@, (a.x, a.y)), hovered),
        },
{
    match selection.tile {
        None => None,
        Some(a) => {
            let kinds = tile_to_tower_types(tilemap, (a.x, a.y));
            find_menu_hit(&kinds, hovered)
        },
    }
}

/// Handles a click on cell `hovered` of a level: updates the selection and
/// returns the events it asks for, in order.
pub fn tile_selection(
    tilemap: &Tilemap,
    towers: &Vec<TowerEntry>,
    parent: Option<usize>,
    selection: &mut TileSelection,
    hovered: (i32, i32),
    running: bool,
) -> (r: Vec<UiEvent>)
    requires
        tilemap.wf(),
        unique_cells(towers@),
    ensures
        (final(selection).tile, r@) == click(
            tilemap@,
            towers@,
            parent,
            old(selection).tile,
            hovered,
            running,
        ),
{
    let mut events: Vec<UiEvent> = Vec::new();
    let previous = selection.tile;
    if hovered.0 > PLAYFIELD_RIGHT {
        if in_zone(hovered, STEP_OUT_ROW) {
            match parent {
                Some(p) => {
                    events.push(UiEvent::LevelSwitch(LevelSwitchEvent { index: p, deselect: None }));
                },
                None => {},
            }
        }
        if in_zone(hovered, CONTINUE_ROW) && !running {
            events.push(UiEvent::Continue);
        }
        assert(events@ =~= strip_events(hovered, parent, running));
        match previous {
            None => {
                return events;
            },
            Some(prev) => {
                let cell = (prev.x, prev.y);
                selection.tile = None;
                events.push(
                    UiEvent::Selection(SelectionEvent { deselected: previous, selected: None }),
                );
                let kinds = tile_to_tower_types(tilemap, cell);
                match find_menu_hit(&kinds, hovered) {
                    Some(k) => {
                        events.push(UiEvent::TowerBuild(TowerBuildEvent { tower: k, position: cell }));
                        return events;
                    },
                    None => {},
                }
                let ghost before = events@;
                match find_tower(towers, cell) {
                    None => {},
                    Some(i) => {
                        if in_zone(hovered, DELETE_ROW) {
                            events.push(UiEvent::TowerDelete(cell));
                        } else if in_zone(hovered, DONATE_ROW) {
                            events.push(UiEvent::TowerDonate(cell));
                        } else if in_zone(hovered, RECURSE_ROW) {
                            events.push(
                                UiEvent::LevelSwitch(
                                    LevelSwitchEvent {
                                        index: towers[i].tower.level_index,
                                        deselect: previous,
                                    },
                                ),
                            );
                        }
                    },
                }
                assert(events@ =~= before + panel_events(towers@, prev, hovered));
                return events;
            },
        }
    }
    let tile = TileAddress { x: hovered.0, y: hovered.1, layer: SELECTION_LAYER };
    if previous == Some(tile) {
        selection.tile = None;
        events.push(UiEvent::Selection(SelectionEvent { deselected: previous, selected: None }));
        assert(events@ =~= click(tilemap@, towers@, parent, previous, hovered, running).1);
        return events;
    }
    selection.tile = Some(tile);
    events.push(UiEvent::Selection(SelectionEvent { deselected: previous, selected: Some(tile) }));
    assert(events@ =~= click(tilemap@, towers@, parent, previous, hovered, running).1);
    events
}

/// Clicking a playfield cell while another is selected ends the old
/// selection and starts the new one in a single event, leaving only the new
/// cell selected.
pub proof fn lemma_selection_exclusive(
    tiles: Map<TileAddress, TileType>,
    towers: Seq<TowerEntry>,
    parent: Option<usize>,
    a: TileAddress,
    hovered: (i32, i32),
    running: bool,
)
    requires
        hovered.0 <= PLAYFIELD_RIGHT,
        a != (TileAddress { x: hovered.0, y: hovered.1, layer: SELECTION_LAYER }),
    ensures
        ({
            let b = TileAddress { x: hovered.0, y: hovered.1, layer: SELECTION_LAYER };
            click(tiles, towers, parent, Some(a), hovered, running) == (
                Some(b),
                seq![UiEvent::Selection(SelectionEvent { deselected: Some(a), selected: Some(b) })],
            )
        }),
{
}

} // verus!
