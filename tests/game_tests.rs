use step_into::bug::BugType;
use step_into::game::{
    config_selection_animation, delete_tower, donate_to_tower, handle_build_tower, handle_level_switch,
    handle_tower_options, led_tower_animation, play_frame, refresh_continue_button, tower_control_panel,
};
use step_into::grid::{grid_to_world, TileAddress};
use step_into::level::{setup_main_level, LevelManager, LevelTheme};
use step_into::selection::{
    tile_selection, LevelSwitchEvent, SelectionEvent, TileSelection, TowerBuildEvent, UiEvent,
};
use step_into::tilemap::TileType;
use step_into::tower::{find_tower, TowerType};
use step_into::wave::{end_wave, get_wave_composition, handle_continue_button, setup_game, spawn_wave, GameState};

fn click(m: &LevelManager, sel: &mut TileSelection, cell: (i32, i32), running: bool) -> Vec<UiEvent> {
    let level = m.get_current_level();
    tile_selection(&level.tilemap, &level.towers, level.parent, sel, cell, running)
}

fn build(m: &mut LevelManager, tower: TowerType, position: (i32, i32), seed: usize) -> usize {
    handle_build_tower(m, TowerBuildEvent { tower, position }, seed).unwrap()
}

#[test]
fn main_level_has_its_cable() {
    let m = setup_main_level();
    assert_eq!(m.levels.len(), 1);
    assert_eq!(m.active, 0);
    let l = m.get_current_level();
    assert_eq!(l.cable.len(), 20);
    assert_eq!(l.tilemap.get(TileAddress::new(-6, 2, 3)), Some(TileType::EndEastCable));
    assert_eq!(l.tilemap.get(TileAddress::new(0, 2, 1)), Some(TileType::HorizontalCable));
    assert_eq!(l.tilemap.get(TileAddress::new(6, 2, 1)), Some(TileType::NorthWestCable));
    assert_eq!(l.tilemap.get(TileAddress::new(0, 3, 3)), Some(TileType::EndEastCable));
    assert_eq!(l.money, 0);
    assert_eq!(l.round, 0);
    assert_eq!(l.parent, None);
}

#[test]
fn added_levels_are_drawn_apart() {
    let mut m = setup_main_level();
    let i = m.add_level(LevelTheme::Red, vec![(0, 0), (0, 1)], Some(0)).unwrap();
    assert_eq!(i, 1);
    assert_eq!(m.levels[1].offset().x, 2_000_000);
    assert_eq!(m.levels[1].parent, Some(0));
    assert!(m.add_level(LevelTheme::Red, vec![(0, 0), (2, 1)], None).is_err());
    assert_eq!(m.levels.len(), 2);
    m.switch_view(1);
    assert_eq!(m.current_offset().x, 2_000_000);
    assert_eq!(m.next_index(), 0);
}

#[test]
fn wave_compositions() {
    let (q, s) = get_wave_composition(1);
    assert_eq!(q, vec![BugType::Hamster]);
    assert_eq!(s, 1);
    let (q, s) = get_wave_composition(2);
    assert_eq!((q.len(), s), (20, 150));
    let (q, s) = get_wave_composition(4);
    assert_eq!((q.len(), s), (30, 140));
    assert_eq!(q[0], BugType::Bug);
    assert_eq!(q[10], BugType::Ant);
    assert_eq!(q[29], BugType::Bug);
    let (q, s) = get_wave_composition(5);
    assert_eq!((q.len(), s), (20, 80));
    let (q, s) = get_wave_composition(6);
    assert_eq!((q.len(), s), (40, 80));
    let (q, s) = get_wave_composition(7);
    assert_eq!((q.len(), s), (30, 60));
    assert!(q.iter().all(|b| *b == BugType::Ant));
    let (q, s) = get_wave_composition(8);
    assert_eq!((q.len(), s), (40, 60));
    assert_eq!(q[39], BugType::Ant);
    let (q, s) = get_wave_composition(9);
    assert_eq!((q.len(), s), (40, 40));
    let (q, s) = get_wave_composition(10);
    assert_eq!((q.len(), s), (100, 10));
    let (q, s) = get_wave_composition(0);
    assert_eq!((q.len(), s), (100, 10));
}

#[test]
fn spawning_takes_the_back_of_the_queue() {
    let mut m = setup_main_level();
    handle_continue_button(&mut m, step_into::wave::WaveStateChange { running: true });
    handle_continue_button(&mut m, step_into::wave::WaveStateChange { running: true });
    handle_continue_button(&mut m, step_into::wave::WaveStateChange { running: true });
    handle_continue_button(&mut m, step_into::wave::WaveStateChange { running: true });
    let level = &mut m.levels[0];
    assert_eq!(level.round, 4);
    level.bug_queue = vec![BugType::Bug, BugType::Ant];
    level.bug_queue_speed = 3;
    assert!(!spawn_wave(level, true));
    assert!(!spawn_wave(level, true));
    assert!(spawn_wave(level, true));
    assert_eq!(level.bugs.len(), 1);
    assert_eq!(level.bugs[0].speed_factor, 1700);
    assert_eq!(level.bugs[0].position, grid_to_world(level.offset(), (-6, 2)));
    assert!(!spawn_wave(level, false));
    assert_eq!(level.bug_frames, 0);
    assert!(!spawn_wave(level, true));
    assert!(!spawn_wave(level, true));
    assert!(spawn_wave(level, true));
    assert_eq!(level.bugs[1].speed_factor, 1000);
    assert!(level.bug_queue.is_empty());
}

#[test]
fn continue_button_follows_the_round() {
    let mut m = setup_main_level();
    handle_continue_button(&mut m, step_into::wave::WaveStateChange { running: false });
    assert_eq!(m.levels[0].tilemap.get(TileAddress::new(10, 4, 10)), Some(TileType::Continue1));
    assert!(!m.levels[0].tilemap.is_occupied(TileAddress::new(10, 2, 10)));
    handle_continue_button(&mut m, step_into::wave::WaveStateChange { running: true });
    assert!(!m.levels[0].tilemap.is_occupied(TileAddress::new(13, 4, 10)));
    assert_eq!(m.levels[0].round, 1);
    assert_eq!(m.levels[0].bug_queue, vec![BugType::Hamster]);
    refresh_continue_button(&mut m, false);
    assert_eq!(m.levels[0].tilemap.get(TileAddress::new(13, 4, 10)), Some(TileType::Continue4));
}

#[test]
fn build_makes_a_tower_and_its_level() {
    let mut m = setup_main_level();
    let child = build(&mut m, TowerType::Capacitor, (0, 0), 35);
    // Seed 35 gives the first template as drawn.
    assert_eq!(child, 1);
    assert_eq!(m.levels.len(), 2);
    assert_eq!(m.active, 0);
    assert_eq!(m.levels[1].parent, Some(0));
    assert_eq!(m.levels[1].theme, LevelTheme::Blue);
    assert_eq!(m.levels[1].cable[0], (-6, -2));
    let l = &m.levels[0];
    assert_eq!(l.tilemap.get(TileAddress::new(0, 0, 4)), Some(TileType::CapacitorTower));
    let i = find_tower(&l.towers, (0, 0)).unwrap();
    let t = l.towers[i].tower;
    assert_eq!(t.tower_type, TowerType::Capacitor);
    assert_eq!((t.frame_counter, t.upgrade_factor, t.balance, t.level_index), (0, 1, 0, 1));
}

#[test]
fn selection_is_exclusive() {
    let m = setup_main_level();
    let mut sel = TileSelection { tile: None };
    let a = TileAddress::new(1, 1, 5);
    let b = TileAddress::new(2, 1, 5);
    let e = click(&m, &mut sel, (1, 1), false);
    assert_eq!(e.len(), 1);
    assert!(matches!(e[0], UiEvent::Selection(SelectionEvent { deselected: None, selected: Some(x) }) if x == a));
    let e = click(&m, &mut sel, (2, 1), false);
    assert_eq!(e.len(), 1);
    assert!(matches!(e[0], UiEvent::Selection(SelectionEvent { deselected: Some(x), selected: Some(y) }) if x == a && y == b));
    assert_eq!(sel.tile, Some(b));
    let e = click(&m, &mut sel, (2, 1), false);
    assert!(matches!(e[0], UiEvent::Selection(SelectionEvent { deselected: Some(x), selected: None }) if x == b));
    assert_eq!(sel.tile, None);
}

#[test]
fn clicking_a_menu_entry_builds() {
    let m = setup_main_level();
    let mut sel = TileSelection { tile: None };
    click(&m, &mut sel, (0, 2), false);
    // On the cable only the resistor is offered; the capacitor's entry does nothing.
    let e = click(&m, &mut sel, (12, 0), false);
    assert_eq!(e.len(), 1);
    assert!(matches!(e[0], UiEvent::Selection(SelectionEvent { selected: None, .. })));
    click(&m, &mut sel, (0, 2), false);
    let e = click(&m, &mut sel, (11, -1), false);
    assert_eq!(e.len(), 2);
    assert!(matches!(e[1], UiEvent::TowerBuild(TowerBuildEvent { tower: TowerType::Resistor, position: (0, 2) })));
    assert_eq!(sel.tile, None);
    // Off the cable the diode is offered.
    click(&m, &mut sel, (0, 0), false);
    let e = click(&m, &mut sel, (11, 0), false);
    assert!(matches!(e[1], UiEvent::TowerBuild(TowerBuildEvent { tower: TowerType::Diode, position: (0, 0) })));
    // A strip click with nothing selected does nothing.
    assert!(click(&m, &mut sel, (11, 0), false).is_empty());
    let e = click(&m, &mut sel, (11, 4), false);
    assert!(matches!(e[0], UiEvent::Continue));
    assert!(click(&m, &mut sel, (11, 4), true).is_empty());
}

#[test]
fn panel_buttons_act_on_the_selected_tower() {
    let mut m = setup_main_level();
    let child = build(&mut m, TowerType::Diode, (0, 0), 3);
    let mut sel = TileSelection { tile: None };
    click(&m, &mut sel, (0, 0), false);
    let e = click(&m, &mut sel, (12, -7), false);
    assert!(matches!(e[1], UiEvent::TowerDelete((0, 0))));
    click(&m, &mut sel, (0, 0), false);
    let e = click(&m, &mut sel, (10, -3), false);
    assert!(matches!(e[1], UiEvent::TowerDonate((0, 0))));
    click(&m, &mut sel, (0, 0), false);
    let e = click(&m, &mut sel, (13, -5), false);
    let prev = TileAddress::new(0, 0, 5);
    assert!(matches!(e[1], UiEvent::LevelSwitch(LevelSwitchEvent { index, deselect: Some(d) }) if index == child && d == prev));
    // Without a tower the panel buttons do nothing.
    click(&m, &mut sel, (4, 4), false);
    let e = click(&m, &mut sel, (12, -7), false);
    assert_eq!(e.len(), 1);
}

#[test]
fn donations_never_leave_debt() {
    let mut m = setup_main_level();
    let child = build(&mut m, TowerType::Diode, (0, 0), 3);
    m.levels[0].money = 150;
    assert!(donate_to_tower(&mut m, (0, 0)));
    assert_eq!(m.levels[0].money, 50);
    let i = find_tower(&m.levels[0].towers, (0, 0)).unwrap();
    assert_eq!(m.levels[0].towers[i].tower.balance, 100);
    assert_eq!(m.levels[child].money, 100);
    assert!(donate_to_tower(&mut m, (0, 0)));
    assert_eq!(m.levels[0].money, 0);
    assert_eq!(m.levels[0].towers[i].tower.balance, 150);
    assert_eq!(m.levels[child].money, 150);
    assert!(!donate_to_tower(&mut m, (5, 5)));
}

#[test]
fn deleting_a_tower_keeps_its_level() {
    let mut m = setup_main_level();
    build(&mut m, TowerType::Capacitor, (0, 0), 3);
    assert!(delete_tower(&mut m, (0, 0)));
    assert!(find_tower(&m.levels[0].towers, (0, 0)).is_none());
    assert!(!m.levels[0].tilemap.is_occupied(TileAddress::new(0, 0, 4)));
    assert_eq!(m.levels.len(), 2);
    assert!(!delete_tower(&mut m, (0, 0)));
}

#[test]
fn switching_levels_draws_the_way_out() {
    let mut m = setup_main_level();
    let child = build(&mut m, TowerType::Capacitor, (0, 0), 3);
    let marker = TileAddress::new(0, 0, 5);
    m.levels[0].tilemap.set(marker, Some(TileType::SelectionBigger));
    let e = handle_level_switch(&mut m, LevelSwitchEvent { index: child, deselect: Some(marker) });
    assert_eq!(e, Some(SelectionEvent { deselected: None, selected: None }));
    assert_eq!(m.active, child);
    assert!(!m.levels[0].tilemap.is_occupied(marker));
    assert_eq!(m.levels[child].tilemap.get(TileAddress::new(10, 2, 10)), Some(TileType::StepOut1));
    let mut sel = TileSelection { tile: None };
    let e = click(&m, &mut sel, (11, 2), false);
    assert!(matches!(e[0], UiEvent::LevelSwitch(LevelSwitchEvent { index: 0, deselect: None })));
    assert_eq!(handle_level_switch(&mut m, LevelSwitchEvent { index: 9, deselect: None }), None);
    assert_eq!(m.active, child);
}

#[test]
fn selection_markers_menu_and_panel() {
    let mut m = setup_main_level();
    build(&mut m, TowerType::Capacitor, (0, 0), 3);
    let a = TileAddress::new(0, 0, 5);
    let ev = SelectionEvent { deselected: None, selected: Some(a) };
    config_selection_animation(&mut m, ev);
    assert_eq!(m.levels[0].tilemap.get(a), Some(TileType::SelectionBigger));
    tower_control_panel(&mut m, ev, false);
    assert_eq!(m.levels[0].tilemap.get(TileAddress::new(10, -7, 10)), Some(TileType::Delete1));
    assert_eq!(m.levels[0].tilemap.get(TileAddress::new(11, -5, 10)), Some(TileType::StepInto2));
    assert_eq!(m.levels[0].tilemap.get(TileAddress::new(13, -3, 10)), Some(TileType::Donate4));
    handle_tower_options(&mut m, ev);
    assert!(!m.levels[0].tilemap.is_occupied(TileAddress::new(12, 0, 0)));
    let b = TileAddress::new(3, 5, 5);
    let ev2 = SelectionEvent { deselected: Some(a), selected: Some(b) };
    config_selection_animation(&mut m, ev2);
    assert!(!m.levels[0].tilemap.is_occupied(a));
    handle_tower_options(&mut m, ev2);
    assert_eq!(m.levels[0].tilemap.get(TileAddress::new(12, 0, 0)), Some(TileType::CapacitorTower));
    assert_eq!(m.levels[0].tilemap.get(TileAddress::new(11, 0, 0)), Some(TileType::LedOff));
    tower_control_panel(&mut m, ev2, false);
    assert!(!m.levels[0].tilemap.is_occupied(TileAddress::new(10, -7, 10)));
}

#[test]
fn diode_lights_up_when_it_flashes() {
    let mut m = setup_main_level();
    build(&mut m, TowerType::Diode, (0, 0), 3);
    led_tower_animation(&mut m);
    assert_eq!(m.levels[0].tilemap.get(TileAddress::new(0, 0, 4)), Some(TileType::LedOn));
    let mut state = GameState::new();
    for _ in 0..10 {
        play_frame(&mut m, &mut state);
    }
    assert_eq!(m.levels[0].tilemap.get(TileAddress::new(0, 0, 4)), Some(TileType::LedOff));
}

#[test]
fn round_end_pays_and_upgrades_the_parent_tower() {
    let (mut state, _) = setup_game();
    let mut m = setup_main_level();
    let child = build(&mut m, TowerType::Resistor, (0, 2), 35);
    handle_level_switch(&mut m, LevelSwitchEvent { index: child, deselect: None });
    for round in 1..=2u32 {
        let start = state.start_round();
        handle_continue_button(&mut m, start);
        assert_eq!(m.levels[child].round, round);
        let (queue, interval) = get_wave_composition(round);
        let mut frames = 0usize;
        let mut ended = None;
        while ended.is_none() {
            play_frame(&mut m, &mut state);
            ended = end_wave(&mut m, &mut state);
            frames += 1;
            assert!(frames < 100_000);
        }
        assert!(frames >= queue.len() * interval as usize);
        assert!(!state.round_running);
        handle_continue_button(&mut m, ended.unwrap());
        assert_eq!(m.levels[child].tilemap.get(TileAddress::new(10, 4, 10)), Some(TileType::Continue1));
        let i = find_tower(&m.levels[0].towers, (0, 2)).unwrap();
        assert_eq!(m.levels[0].towers[i].tower.upgrade_factor, round + 1);
    }
    assert_eq!(m.levels[child].money, 500 * 1 + 500 * 2);
    assert_eq!(m.levels[0].money, 0);
    // The hamster and twenty bugs all got through.
    assert_eq!(state.health, 0);
}

#[test]
fn round_does_not_end_while_bugs_remain() {
    let (mut state, first) = setup_game();
    assert!(!first.running);
    let mut m = setup_main_level();
    assert_eq!(end_wave(&mut m, &mut state), None);
    let start = state.start_round();
    handle_continue_button(&mut m, start);
    assert_eq!(end_wave(&mut m, &mut state), None);
    play_frame(&mut m, &mut state);
    assert_eq!(m.levels[0].bugs.len(), 1);
    assert_eq!(end_wave(&mut m, &mut state), None);
    assert!(state.round_running);
    m.levels[0].bugs[0].health = 0;
    play_frame(&mut m, &mut state);
    assert!(m.levels[0].bugs.is_empty());
    assert_eq!(end_wave(&mut m, &mut state), Some(step_into::wave::WaveStateChange { running: false }));
    assert_eq!(m.levels[0].money, 500);
    assert_eq!(state.health, 100);
}

#[test]
fn round_end_shows_the_way_out_only_below_a_parent() {
    let mut m = setup_main_level();
    let step_out = TileAddress::new(10, 2, 10);
    m.levels[0].tilemap.set(step_out, Some(TileType::StepOut1));
    handle_continue_button(&mut m, step_into::wave::WaveStateChange { running: false });
    assert!(!m.levels[0].tilemap.is_occupied(step_out));
    assert_eq!(m.levels[0].tilemap.get(TileAddress::new(10, 4, 10)), Some(TileType::Continue1));
    let child = build(&mut m, TowerType::Diode, (0, 0), 5);
    handle_level_switch(&mut m, LevelSwitchEvent { index: child, deselect: None });
    handle_continue_button(&mut m, step_into::wave::WaveStateChange { running: true });
    assert!(!m.levels[child].tilemap.is_occupied(step_out));
    handle_continue_button(&mut m, step_into::wave::WaveStateChange { running: false });
    assert_eq!(m.levels[child].tilemap.get(step_out), Some(TileType::StepOut1));
}
