use step_into::bug::{check_bug_health, move_bugs, BugSprite, BugType};
use step_into::defense::{handle_capacitor, handle_capacitor_bullet, handle_led, handle_resistor};
use step_into::grid::{grid_to_world, TileAddress, WorldPos};
use step_into::tilemap::{Tilemap, TileType};
use step_into::tower::{
    tile_to_tower_types, tower_type_to_tile, tower_type_to_tile_type, CapacitorBullet, TowerEntry,
    TowerSprite, TowerType,
};
use step_into::wave::GameState;

fn origin() -> WorldPos {
    WorldPos { x: 0, y: 0 }
}

fn at(cell: (i32, i32)) -> WorldPos {
    grid_to_world(origin(), cell)
}

fn tower(cell: (i32, i32), tower_type: TowerType, frame_counter: u32, upgrade_factor: u32) -> TowerEntry {
    TowerEntry {
        cell,
        tower: TowerSprite { tower_type, frame_counter, upgrade_factor, balance: 0, level_index: 1 },
    }
}

#[test]
fn build_options_follow_the_cell() {
    let mut m = Tilemap::new(origin());
    assert_eq!(tile_to_tower_types(&m, (0, 0)), vec![TowerType::Capacitor, TowerType::Diode]);
    m.set(TileAddress::new(0, 0, 1), Some(TileType::HorizontalCable));
    assert_eq!(tile_to_tower_types(&m, (0, 0)), vec![TowerType::Resistor]);
    m.set(TileAddress::new(0, 0, 4), Some(TileType::ResistorTower));
    assert_eq!(tile_to_tower_types(&m, (0, 0)), vec![]);
    m.set(TileAddress::new(1, 0, 3), Some(TileType::EndEastCable));
    assert_eq!(tile_to_tower_types(&m, (1, 0)), vec![]);
    m.set(TileAddress::new(2, 0, 5), Some(TileType::SelectionBigger));
    assert_eq!(tile_to_tower_types(&m, (2, 0)), vec![TowerType::Capacitor, TowerType::Diode]);
}

#[test]
fn menu_cells_and_markers() {
    assert_eq!(tower_type_to_tile(&TowerType::Resistor), (11, -1));
    assert_eq!(tower_type_to_tile(&TowerType::Capacitor), (12, 0));
    assert_eq!(tower_type_to_tile(&TowerType::Diode), (11, 0));
    assert_eq!(tower_type_to_tile_type(&TowerType::Diode), TileType::LedOff);
    assert_eq!(tower_type_to_tile_type(&TowerType::Resistor), TileType::ResistorTower);
    assert_eq!(tower_type_to_tile_type(&TowerType::Capacitor), TileType::CapacitorTower);
}

#[test]
fn resistor_slows_only_bugs_on_its_cell() {
    let towers = vec![tower((0, 0), TowerType::Resistor, 0, 1), tower((3, 0), TowerType::Resistor, 0, 2)];
    let mut bugs = vec![
        BugSprite::new(BugType::Bug, at((0, 0))),
        BugSprite::new(BugType::Bug, at((3, 0))),
        BugSprite::new(BugType::Bug, at((1, 0))),
    ];
    handle_resistor(&towers, origin(), &mut bugs);
    assert_eq!(bugs[0].resistor_debuff, 500);
    assert_eq!(bugs[1].resistor_debuff, 250);
    assert_eq!(bugs[2].resistor_debuff, 1000);
    // The first bug walks off the resistor: the next frame it is at full speed.
    bugs[0].position = at((1, 0));
    handle_resistor(&towers, origin(), &mut bugs);
    assert_eq!(bugs[0].resistor_debuff, 1000);
}

#[test]
fn diode_flashes_when_its_counter_wraps() {
    let mut towers = vec![tower((0, 0), TowerType::Diode, 59, 1), tower((5, 5), TowerType::Diode, 10, 3)];
    let mut bugs = vec![
        BugSprite::new(BugType::Bug, at((1, 0))),
        BugSprite::new(BugType::Bug, at((2, 0))),
        BugSprite::new(BugType::Bug, at((1, 1))),
        BugSprite::new(BugType::Bug, at((5, 5))),
    ];
    handle_led(&mut towers, origin(), &mut bugs);
    assert_eq!(towers[0].tower.frame_counter, 0);
    assert_eq!(towers[1].tower.frame_counter, 11);
    assert_eq!(bugs[0].health, 700);
    assert_eq!(bugs[1].health, 1000);
    assert_eq!(bugs[2].health, 700);
    assert_eq!(bugs[3].health, 1000);
}

#[test]
fn diode_damage_grows_with_upgrades() {
    let mut towers = vec![tower((0, 0), TowerType::Diode, 59, 4)];
    let mut bugs = vec![BugSprite::new(BugType::Hamster, at((0, 0)))];
    handle_led(&mut towers, origin(), &mut bugs);
    assert_eq!(bugs[0].health, 15000 - 450);
}

#[test]
fn capacitor_tags_the_first_bug_in_reach() {
    let mut towers = vec![tower((0, 0), TowerType::Capacitor, 239, 1), tower((9, 9), TowerType::Resistor, 0, 1)];
    let mut bugs = vec![
        BugSprite::new(BugType::Bug, at((10, 0))),
        BugSprite::new(BugType::Ant, at((3, 0))),
        BugSprite::new(BugType::Bug, at((1, 0))),
    ];
    let mut bullets: Vec<CapacitorBullet> = Vec::new();
    let mut tag: u64 = 7;
    handle_capacitor(&mut towers, origin(), &mut bugs, &mut bullets, &mut tag);
    assert_eq!(towers[0].tower.frame_counter, 0);
    assert_eq!(towers[1].tower.frame_counter, 0);
    assert_eq!(bugs[0].target, None);
    assert_eq!(bugs[1].target, Some(7));
    assert_eq!(bugs[2].target, None);
    assert_eq!(bullets, vec![CapacitorBullet { position: at((0, 0)), id: 7, damage: 850 }]);
    assert_eq!(tag, 8);
    // Not yet time for the next shot.
    handle_capacitor(&mut towers, origin(), &mut bugs, &mut bullets, &mut tag);
    assert_eq!(towers[0].tower.frame_counter, 1);
    assert_eq!(bullets.len(), 1);
}

#[test]
fn capacitor_without_bugs_in_reach_holds_fire() {
    let mut towers = vec![tower((0, 0), TowerType::Capacitor, 239, 1)];
    let mut bugs = vec![BugSprite::new(BugType::Bug, at((7, 0)))];
    let mut bullets: Vec<CapacitorBullet> = Vec::new();
    let mut tag: u64 = 0;
    handle_capacitor(&mut towers, origin(), &mut bugs, &mut bullets, &mut tag);
    assert!(bullets.is_empty());
    assert_eq!(tag, 0);
    assert_eq!(bugs[0].target, None);
}

#[test]
fn shots_fly_hit_and_vanish() {
    let mut target = BugSprite::new(BugType::Bug, at((0, 0)));
    target.target = Some(1);
    let mut far = BugSprite::new(BugType::Bug, at((4, 0)));
    far.target = Some(2);
    let mut bugs = vec![target, far];
    let start = at((0, 0));
    let mut bullets = vec![
        CapacitorBullet { position: WorldPos { x: start.x + 5000, y: start.y }, id: 1, damage: 850 },
        CapacitorBullet { position: start, id: 2, damage: 950 },
        CapacitorBullet { position: start, id: 3, damage: 950 },
    ];
    handle_capacitor_bullet(&mut bugs, &mut bullets);
    assert_eq!(bugs[0].health, 150);
    assert_eq!(bugs[1].health, 1000);
    assert_eq!(
        bullets,
        vec![CapacitorBullet { position: WorldPos { x: start.x + 21370, y: start.y }, id: 2, damage: 950 }]
    );
}

#[test]
fn bugs_walk_the_cable() {
    let cable = vec![(0, 0), (1, 0), (1, 1)];
    let mut state = GameState::new();
    let mut bugs = vec![BugSprite::new(BugType::Bug, at((0, 0))), BugSprite::new(BugType::Ant, at((0, 0)))];
    move_bugs(&mut bugs, &cable, origin(), &mut state);
    assert_eq!(bugs[0].cable_progress, 1);
    assert_eq!(bugs[0].position, at((0, 0)));
    move_bugs(&mut bugs, &cable, origin(), &mut state);
    assert_eq!(bugs[0].position, WorldPos { x: 24000 + 2137, y: 24000 });
    assert_eq!(bugs[1].position, WorldPos { x: 24000 + 3632, y: 24000 });
    bugs[0].resistor_debuff = 500;
    move_bugs(&mut bugs, &cable, origin(), &mut state);
    assert_eq!(bugs[0].position, WorldPos { x: 24000 + 2137 + 1068, y: 24000 });
    assert_eq!(state.health, 100);
}

#[test]
fn breaches_cost_health() {
    let cable = vec![(0, 0), (1, 0)];
    let mut state = GameState::new();
    let mut bug = BugSprite::new(BugType::Bug, at((1, 0)));
    bug.cable_progress = 1;
    let mut bugs = vec![bug];
    move_bugs(&mut bugs, &cable, origin(), &mut state);
    assert!(bugs.is_empty());
    assert_eq!(state.health, 90);
    let mut hamster = BugSprite::new(BugType::Hamster, at((1, 0)));
    hamster.cable_progress = 1;
    let mut bugs = vec![hamster];
    let mut rich = GameState { health: 5000, round_running: true };
    move_bugs(&mut bugs, &cable, origin(), &mut rich);
    assert_eq!(rich.health, 5000 - 2147);
    assert!(rich.round_running);
    let mut bugs = vec![hamster];
    move_bugs(&mut bugs, &cable, origin(), &mut state);
    assert_eq!(state.health, 0);
}

#[test]
fn dead_bugs_leave() {
    let mut a = BugSprite::new(BugType::Bug, at((0, 0)));
    a.health = 0;
    let b = BugSprite::new(BugType::Ant, at((0, 0)));
    let mut c = BugSprite::new(BugType::Bug, at((0, 0)));
    c.health = -3;
    let mut bugs = vec![a, b, c];
    assert_eq!(check_bug_health(&mut bugs), 2);
    assert_eq!(bugs, vec![b]);
}

#[test]
fn new_bugs_have_their_kinds_numbers() {
    let b = BugSprite::new(BugType::Bug, at((0, 0)));
    assert_eq!((b.health, b.speed_factor, b.hamster), (1000, 1000, false));
    let a = BugSprite::new(BugType::Ant, at((0, 0)));
    assert_eq!((a.health, a.speed_factor, a.hamster), (500, 1700, false));
    let h = BugSprite::new(BugType::Hamster, at((0, 0)));
    assert_eq!((h.health, h.speed_factor, h.hamster), (15000, 400, true));
    assert_eq!(h.resistor_debuff, 1000);
    assert_eq!(h.cable_progress, 0);
}
