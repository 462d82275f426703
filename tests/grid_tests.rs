use step_into::grid::{grid_to_world, world_to_grid, TileAddress, WorldPos};
use step_into::tilemap::{Tilemap, TileType};

fn origin() -> WorldPos {
    WorldPos { x: 0, y: 0 }
}

#[test]
fn grid_to_world_centres_cells() {
    let p = grid_to_world(origin(), (0, 0));
    assert_eq!(p, WorldPos { x: 24000, y: 24000 });
    let q = grid_to_world(WorldPos { x: 2_000_000, y: 0 }, (-2, 3));
    assert_eq!(q, WorldPos { x: 2_000_000 - 96000 + 24000, y: 3 * 48000 + 24000 });
}

#[test]
fn world_to_grid_floors_negative_positions() {
    assert_eq!(world_to_grid(origin(), WorldPos { x: -1, y: 0 }), Some((-1, 0)));
    assert_eq!(world_to_grid(origin(), WorldPos { x: -48000, y: 47999 }), Some((-1, 0)));
    assert_eq!(world_to_grid(origin(), WorldPos { x: -48001, y: 48000 }), Some((-2, 1)));
}

#[test]
fn world_to_grid_reports_cells_beyond_i32() {
    assert_eq!(world_to_grid(origin(), WorldPos { x: i64::MAX, y: 0 }), None);
}

#[test]
fn grid_world_round_trip() {
    let offsets = [origin(), WorldPos { x: 4_000_000, y: -17 }];
    for o in offsets {
        for x in [-9, -1, 0, 1, 7, 15] {
            for y in [-8, -1, 0, 3] {
                assert_eq!(world_to_grid(o, grid_to_world(o, (x, y))), Some((x, y)));
            }
        }
        let extreme = (i32::MIN, i32::MAX);
        assert_eq!(world_to_grid(o, grid_to_world(o, extreme)), Some(extreme));
    }
}

#[test]
fn setting_a_tile_twice_keeps_one() {
    let mut m = Tilemap::new(origin());
    let a = TileAddress::new(1, 2, 3);
    m.set(a, Some(TileType::LedOn));
    m.set(a, Some(TileType::LedOn));
    assert_eq!(m.get(a), Some(TileType::LedOn));
    assert!(m.is_occupied(a));
    m.set(a, Some(TileType::LedOff));
    assert_eq!(m.get(a), Some(TileType::LedOff));
    assert_eq!(m.take_changes(), vec![a, a, a]);
    assert!(m.take_changes().is_empty());
}

#[test]
fn clearing_a_tile_removes_it() {
    let mut m = Tilemap::new(origin());
    let a = TileAddress::new(0, 0, 1);
    let b = TileAddress::new(0, 0, 4);
    m.set(a, Some(TileType::HorizontalCable));
    m.set(b, Some(TileType::ResistorTower));
    m.set(a, None);
    assert!(!m.is_occupied(a));
    assert_eq!(m.get(b), Some(TileType::ResistorTower));
    m.set(a, None);
    assert_eq!(m.get(a), None);
}
