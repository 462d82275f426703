use step_into::cable::{check_cable, delta, random_path, set_cable, CableError, Direction};
use step_into::grid::{TileAddress, WorldPos};
use step_into::tilemap::{Tilemap, TileType};

fn surface() -> Tilemap {
    Tilemap::new(WorldPos { x: 0, y: 0 })
}

#[test]
fn delta_names_the_neighbour() {
    assert_eq!(delta(&(0, 0), &(0, 1)), Some(Direction::North));
    assert_eq!(delta(&(0, 0), &(0, -1)), Some(Direction::South));
    assert_eq!(delta(&(0, 0), &(-1, 0)), Some(Direction::West));
    assert_eq!(delta(&(0, 0), &(1, 0)), Some(Direction::East));
    assert_eq!(delta(&(0, 0), &(1, 1)), None);
    assert_eq!(delta(&(0, 0), &(0, 0)), None);
    assert_eq!(delta(&(i32::MIN, 0), &(i32::MAX, 0)), None);
}

#[test]
fn corner_path_gets_its_tiles() {
    let mut m = surface();
    let path = vec![(0, 0), (1, 0), (1, 1)];
    set_cable(&mut m, &path);
    assert_eq!(m.get(TileAddress::new(0, 0, 3)), Some(TileType::EndEastCable));
    assert_eq!(m.get(TileAddress::new(1, 0, 1)), Some(TileType::NorthWestCable));
    assert_eq!(m.get(TileAddress::new(1, 1, 3)), Some(TileType::EndSouthCable));
    assert!(!m.is_occupied(TileAddress::new(0, 0, 1)));
    assert_eq!(
        m.take_changes(),
        vec![TileAddress::new(0, 0, 3), TileAddress::new(1, 0, 1), TileAddress::new(1, 1, 3)]
    );
}

#[test]
fn straight_and_every_corner() {
    let mut m = surface();
    // A loop-free path that turns every way.
    let path = vec![(0, 0), (1, 0), (2, 0), (2, 1), (3, 1), (3, 0), (3, -1), (2, -1)];
    set_cable(&mut m, &path);
    assert_eq!(m.get(TileAddress::new(1, 0, 1)), Some(TileType::HorizontalCable));
    assert_eq!(m.get(TileAddress::new(2, 0, 1)), Some(TileType::NorthWestCable));
    assert_eq!(m.get(TileAddress::new(2, 1, 1)), Some(TileType::SouthEastCable));
    assert_eq!(m.get(TileAddress::new(3, 1, 1)), Some(TileType::SouthWestCable));
    assert_eq!(m.get(TileAddress::new(3, 0, 1)), Some(TileType::VerticalCable));
    assert_eq!(m.get(TileAddress::new(3, -1, 1)), Some(TileType::NorthWestCable));
    assert_eq!(m.get(TileAddress::new(2, -1, 3)), Some(TileType::EndEastCable));
    let mut n = surface();
    set_cable(&mut n, &vec![(0, 0), (0, 1), (1, 1)]);
    assert_eq!(n.get(TileAddress::new(0, 1, 1)), Some(TileType::SouthEastCable));
    assert_eq!(n.get(TileAddress::new(0, 0, 3)), Some(TileType::EndNorthCable));
    assert_eq!(n.get(TileAddress::new(1, 1, 3)), Some(TileType::EndWestCable));
}

#[test]
fn broken_paths_are_refused() {
    assert_eq!(check_cable(&vec![(0, 0), (2, 0), (3, 0)]), Err(CableError { index: 0 }));
    assert_eq!(check_cable(&vec![(0, 0), (1, 0), (2, 1), (3, 1)]), Err(CableError { index: 1 }));
    assert_eq!(check_cable(&vec![(0, 0), (1, 1)]), Err(CableError { index: 0 }));
    assert_eq!(check_cable(&vec![(0, 0), (0, 0)]), Err(CableError { index: 0 }));
    assert_eq!(check_cable(&vec![(0, 0), (1, 0), (0, 0)]), Err(CableError { index: 1 }));
    assert_eq!(check_cable(&vec![(5, 5)]), Err(CableError { index: 0 }));
    assert_eq!(check_cable(&vec![]), Err(CableError { index: 0 }));
    assert_eq!(check_cable(&vec![(0, 0), (1, 0), (1, 1)]), Ok(()));
}

#[test]
fn random_path_is_deterministic() {
    for seed in [0usize, 1, 2, 35, 1234, usize::MAX] {
        assert_eq!(random_path(seed), random_path(seed));
    }
}

#[test]
fn random_path_golden_values() {
    let plain = random_path(35);
    assert_eq!(plain.len(), 29);
    assert_eq!(plain[0], (-6, -2));
    assert_eq!(plain[28], (5, -7));
    let transposed = random_path(17);
    assert_eq!(transposed[0], (-2, -6));
    let flipped = random_path(26);
    assert_eq!(flipped[0], (6, 2));
    assert_eq!(flipped[28], (-5, 7));
    let both = random_path(0);
    assert_eq!(both.len(), 28);
    assert_eq!(both[0], (-6, 6));
    assert_eq!(both[27], (0, -7));
    let other = random_path(1);
    assert_eq!(other.len(), 36);
    assert_eq!(other[0], (1, -8));
}

#[test]
fn random_paths_are_cables_and_vary() {
    let mut seen: Vec<Vec<(i32, i32)>> = Vec::new();
    for seed in 0..300usize {
        let p = random_path(seed);
        assert_eq!(check_cable(&p), Ok(()));
        if !seen.contains(&p) {
            seen.push(p);
        }
    }
    // Four templates, each mirrored or not and swapped or not.
    assert_eq!(seen.len(), 16);
}

#[test]
fn every_variant_has_a_seed() {
    let templates = [random_path(3), random_path(27), random_path(15), random_path(7)];
    let flip = |p: &Vec<(i32, i32)>| p.iter().map(|c| (-c.0, -c.1)).collect::<Vec<_>>();
    let swap = |p: &Vec<(i32, i32)>| p.iter().map(|c| (c.1, c.0)).collect::<Vec<_>>();
    // Seeds per template for: as drawn, swapped, mirrored, mirrored and swapped.
    let seeds = [[3usize, 17, 26, 8], [27, 5, 18, 0], [15, 1, 6, 28], [7, 25, 2, 16]];
    for t in 0..4 {
        let p = &templates[t];
        assert_eq!(random_path(seeds[t][0]), *p);
        assert_eq!(random_path(seeds[t][1]), swap(p));
        assert_eq!(random_path(seeds[t][2]), flip(p));
        assert_eq!(random_path(seeds[t][3]), swap(&flip(p)));
    }
    assert_eq!(templates[0][0], (-6, -2));
    assert_eq!(templates[1][0], (-6, 6));
    assert_eq!(templates[2][0], (-8, 1));
    assert_eq!(templates[3][0], (-6, 7));
}
