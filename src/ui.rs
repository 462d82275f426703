//! The strip beside the playfield: its hot zones, the build menu, the tower
//! control panel and the continue button, all drawn as tiles.
use vstd::prelude::*;
use crate::grid::TileAddress;
use crate::tilemap::{Tilemap, TileType, set_spec};
use crate::tower::{
    TowerType,
    eligible_types,
    menu_cell,
    marker_tile,
    tile_to_tower_types,
    tower_type_to_tile,
    tower_type_to_tile_type,
    MENU_LAYER,
};

verus! {

/// Layer of the strip's buttons.
pub const UI_LAYER: i32 = 10;

/// First column of the strip's buttons; each button spans four cells.
pub const PANEL_LEFT: i32 = 10;

/// Row of the button that deletes the selected tower.
pub const DELETE_ROW: i32 = -7;

/// Row of the button that enters the selected tower's level.
pub const RECURSE_ROW: i32 = -5;

/// Row of the button that donates to the selected tower.
pub const DONATE_ROW: i32 = -3;

/// Row of the button that goes back to the parent level.
pub const STEP_OUT_ROW: i32 = 2;

/// Row of the button that starts the next round.
pub const CONTINUE_ROW: i32 = 4;

/// Columns beyond this one belong to the strip, not the playfield.
pub const PLAYFIELD_RIGHT: i32 = 7;

/// Whether a cell lies on the button of a row.
pub open spec fn in_zone_spec(c: (i32, i32), row: i32) -> bool {
    c.1 == row && PANEL_LEFT <= c.0 < PANEL_LEFT + 4
}

/// Whether a cell lies on the button of a row.
pub fn in_zone(c: (i32, i32), row: i32) -> (r: bool)
    ensures
        r == in_zone_spec(c, row),
{
    c.1 == row && PANEL_LEFT <= c.0 && c.0 < PANEL_LEFT + 4
}

/// The address of the `k`-th cell of a row's button.
pub open spec fn button_cell(row: i32, k: int) -> TileAddress {
    TileAddress { x: (PANEL_LEFT + k) as i32, y: row, layer: UI_LAYER }
}

/// The tiles after drawing (or clearing) the four cells of a row's button.
pub open spec fn button_spec(
    m: Map<TileAddress, TileType>,
    row: i32,
    t: (Option<TileType>, Option<TileType>, Option<TileType>, Option<TileType>),
) -> Map<TileAddress, TileType> {
    set_spec(
        set_spec(
            set_spec(set_spec(m, button_cell(row, 0), t.0), button_cell(row, 1), t.1),
            button_cell(row, 2),
            t.2,
        ),
        button_cell(row, 3),
        t.3,
    )
}

/// Nothing, on all four cells.
pub open spec fn blank() -> (Option<TileType>, Option<TileType>, Option<TileType>, Option<TileType>) {
    (None, None, None, None)
}

/// The delete button's tiles.
pub open spec fn delete_tiles() -> (
    Option<TileType>,
    Option<TileType>,
    Option<TileType>,
    Option<TileType>,
) {
    (
        Some(TileType::Delete1),
        Some(TileType::Delete2),
        Some(TileType::Delete3),
        Some(TileType::Delete4),
    )
}

/// The tiles of the button that enters a tower's level.
pub open spec fn recurse_tiles() -> (
    Option<TileType>,
    Option<TileType>,
    Option<TileType>,
    Option<TileType>,
) {
    (
        Some(TileType::StepInto1),
        Some(TileType::StepInto2),
        Some(TileType::StepInto3),
        Some(TileType::StepInto4),
    )
}

/// The donate button's tiles.
pub open spec fn donate_tiles() -> (
    Option<TileType>,
    Option<TileType>,
    Option<TileType>,
    Option<TileType>,
) {
    (
        Some(TileType::Donate1),
        Some(TileType::Donate2),
        Some(TileType::Donate3),
        Some(TileType::Donate4),
    )
}

/// The tiles of the button that goes back to the parent level.
pub open spec fn step_out_tiles() -> (
    Option<TileType>,
    Option<TileType>,
    Option<TileType>,
    Option<TileType>,
) {
    (
        Some(TileType::StepOut1),
        Some(TileType::StepOut2),
        Some(TileType::StepOut3),
        Some(TileType::StepOut4),
    )
}

/// The continue button's tiles.
pub open spec fn continue_tiles() -> (
    Option<TileType>,
    Option<TileType>,
    Option<TileType>,
    Option<TileType>,
) {
    (
        Some(TileType::Continue1),
        Some(TileType::Continue2),
        Some(TileType::Continue3),
        Some(TileType::Continue4),
    )
}

/// Draws, or clears, the four cells of a row's button.
pub fn set_button(
    tilemap: &mut Tilemap,
    row: i32,
    t: (Option<TileType>, Option<TileType>, Option<TileType>, Option<TileType>),
)
    requires
        old(tilemap).wf(),
    ensures
        final(tilemap).wf(),
        final(tilemap).origin() == old(tilemap).origin(),
        final(tilemap)@ == button_spec(old(tilemap)@, row, t),
{
    tilemap.set(TileAddress { x: PANEL_LEFT, y: row, layer: UI_LAYER }, t.0);
    tilemap.set(TileAddress { x: PANEL_LEFT + 1, y: row, layer: UI_LAYER }, t.1);
    tilemap.set(TileAddress { x: PANEL_LEFT + 2, y: row, layer: UI_LAYER }, t.2);
    tilemap.set(TileAddress { x: PANEL_LEFT + 3, y: row, layer: UI_LAYER }, t.3);
}

/// The tiles with the control panel of a tower drawn: delete and donate,
/// and the way into its level while no round is running.
pub open spec fn panel_shown(m: Map<TileAddress, TileType>, running: bool) -> Map<
    TileAddress,
    TileType,
> {
    let m1 = button_spec(m, DELETE_ROW, delete_tiles());
    let m2 = if !running {
        button_spec(m1, RECURSE_ROW, recurse_tiles())
    } else {
        m1
    };
    button_spec(m2, DONATE_ROW, donate_tiles())
}

/// The tiles with the control panel cleared.
pub open spec fn panel_hidden(m: Map<TileAddress, TileType>) -> Map<TileAddress, TileType> {
    button_spec(
        button_spec(button_spec(m, DELETE_ROW, blank()), DONATE_ROW, blank()),
        RECURSE_ROW,
        blank(),
    )
}

/// Draws the control panel of a tower.
pub fn show_control_panel(tilemap: &mut Tilemap, running: bool)
    requires
        old(tilemap).wf(),
    ensures
        final(tilemap).wf(),
        final(tilemap).origin() == old(tilemap).origin(),
        final(tilemap)@ == panel_shown(old(tilemap)@, running),
{
    set_button(
        tilemap,
        DELETE_ROW,
        (
            Some(TileType::Delete1),
            Some(TileType::Delete2),
            Some(TileType::Delete3),
            Some(TileType::Delete4),
        ),
    );
    if !running {
        set_button(
            tilemap,
            RECURSE_ROW,
            (
                Some(TileType::StepInto1),
                Some(TileType::StepInto2),
                Some(TileType::StepInto3),
                Some(TileType::StepInto4),
            ),
        );
    }
    set_button(
        tilemap,
        DONATE_ROW,
        (
            Some(TileType::Donate1),
            Some(TileType::Donate2),
            Some(TileType::Donate3),
            Some(TileType::Donate4),
        ),
    );
}

/// Clears the control panel.
pub fn hide_control_panel(tilemap: &mut Tilemap)
    requires
        old(tilemap).wf(),
    ensures
        final(tilemap).wf(),
        final(tilemap).origin() == old(tilemap).origin(),
        final(tilemap)@ == panel_hidden(old(tilemap)@),
{
    set_button(tilemap, DELETE_ROW, (None, None, None, None));
    set_button(tilemap, DONATE_ROW, (None, None, None, None));
    set_button(tilemap, RECURSE_ROW, (None, None, None, None));
}

/// The tiles with the continue button drawn, and the way out drawn where
/// the level has a parent and cleared where it has none.
pub open spec fn continue_shown(m: Map<TileAddress, TileType>, has_parent: bool) -> Map<
    TileAddress,
    TileType,
> {
    let m1 = button_spec(m, CONTINUE_ROW, continue_tiles());
    if has_parent {
        button_spec(m1, STEP_OUT_ROW, step_out_tiles())
    } else {
        button_spec(m1, STEP_OUT_ROW, blank())
    }
}

/// The tiles with the continue button and the way out cleared.
pub open spec fn continue_hidden(m: Map<TileAddress, TileType>) -> Map<TileAddress, TileType> {
    button_spec(button_spec(m, CONTINUE_ROW, blank()), STEP_OUT_ROW, blank())
}

/// Draws the continue button, and the way out where the level has a parent;
/// on a level without one the way out is cleared.
pub fn show_continue_button(tilemap: &mut Tilemap, has_parent: bool)
    requires
        old(tilemap).wf(),
    ensures
        final(tilemap).wf(),
        final(tilemap).origin() == old(tilemap).origin(),
        final(tilemap)@ == continue_shown(old(tilemap)@, has_parent),
{
    set_button(
        tilemap,
        CONTINUE_ROW,
        (
            Some(TileType::Continue1),
            Some(TileType::Continue2),
            Some(TileType::Continue3),
            Some(TileType::Continue4),
        ),
    );
    if has_parent {
        show_step_out(tilemap);
    } else {
        set_button(tilemap, STEP_OUT_ROW, (None, None, None, None));
    }
}

/// Draws the way out to the parent level.
pub fn show_step_out(tilemap: &mut Tilemap)
    requires
        old(tilemap).wf(),
    ensures
        final(tilemap).wf(),
        final(tilemap).origin() == old(tilemap).origin(),
        final(tilemap)@ == button_spec(old(tilemap)@, STEP_OUT_ROW, step_out_tiles()),
{
    set_button(
        tilemap,
        STEP_OUT_ROW,
        (
            Some(TileType::StepOut1),
            Some(TileType::StepOut2),
            Some(TileType::StepOut3),
            Some(TileType::StepOut4),
        ),
    );
}

/// Clears the continue button and the way out.
pub fn hide_continue_button(tilemap: &mut Tilemap)
    requires
        old(tilemap).wf(),
    ensures
        final(tilemap).wf(),
        final(tilemap).origin() == old(tilemap).origin(),
        final(tilemap)@ == continue_hidden(old(tilemap)@),
{
    set_button(tilemap, CONTINUE_ROW, (None, None, None, None));
    set_button(tilemap, STEP_OUT_ROW, (None, None, None, None));
}

/// The address of a tower kind's build-menu tile.
pub open spec fn menu_address(t: TowerType) -> TileAddress {
    TileAddress { x: menu_cell(t).0, y: menu_cell(t).1, layer: MENU_LAYER }
}

/// The tiles with the whole build menu cleared.
pub open spec fn menu_cleared(m: Map<TileAddress, TileType>) -> Map<TileAddress, TileType> {
    set_spec(
        set_spec(
            set_spec(m, menu_address(TowerType::Resistor), None),
            menu_address(TowerType::Capacitor),
            None,
        ),
        menu_address(TowerType::Diode),
        None,
    )
}

/// The tiles after drawing the menu entries of the first `n` kinds.
pub open spec fn menu_drawn(m: Map<TileAddress, TileType>, kinds: Seq<TowerType>, n: nat) -> Map<
    TileAddress,
    TileType,
>
    decreases n,
{
    if n == 0 {
        m
    } else {
        let k = kinds[n - 1];
        set_spec(menu_drawn(m, kinds, (n - 1) as nat), menu_address(k), Some(marker_tile(k)))
    }
}

/// The tiles after a selection: the build menu cleared, then, for a selected
/// cell, an entry drawn for each kind that may be built there.
pub open spec fn options_after(m: Map<TileAddress, TileType>, selected: Option<TileAddress>) -> Map<
    TileAddress,
    TileType,
> {
    let m1 = menu_cleared(m);
    match selected {
        None => m1,
        Some(a) => {
            let kinds = eligible_types(m1, (a.x, a.y));
            menu_drawn(m1, kinds, kinds.len())
        },
    }
}

/// Redraws the build menu for a selection.
pub fn tower_options(tilemap: &mut Tilemap, selected: Option<TileAddress>)
    requires
        old(tilemap).wf(),
    ensures
        final(tilemap).wf(),
        final(tilemap).origin() == old(tilemap).origin(),
        final(tilemap)@ == options_after(old(tilemap)@, selected),
{
    let r = tower_type_to_tile(&TowerType::Resistor);
    tilemap.set(TileAddress { x: r.0, y: r.1, layer: MENU_LAYER }, None);
    let c = tower_type_to_tile(&TowerType::Capacitor);
    tilemap.set(TileAddress { x: c.0, y: c.1, layer: MENU_LAYER }, None);
    let d = tower_type_to_tile(&TowerType::Diode);
    tilemap.set(TileAddress { x: d.0, y: d.1, layer: MENU_LAYER }, None);
    match selected {
        None => {},
        Some(a) => {
            let ghost m1 = tilemap@;
            let kinds = tile_to_tower_types(tilemap, (a.x, a.y));
            let mut i: usize = 0;
            while i < kinds.len()
                invariant
                    i <= kinds@.len(),
                    tilemap.wf(),
                    tilemap.origin() == old(tilemap).origin(),
                    tilemap@ == menu_drawn(m1, kinds@, i as nat),
                decreases kinds@.len() - i,
            {
                let k = kinds[i];
                let cell = tower_type_to_tile(&k);
                tilemap.set(
                    TileAddress { x: cell.0, y: cell.1, layer: MENU_LAYER },
                    Some(tower_type_to_tile_type(&k)),
                );
                i = i + 1;
            }
        },
    }
}

} // verus!
