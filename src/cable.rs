//! The cable: the path that bugs follow, its tiles, and the path generator.
use vstd::prelude::*;
use crate::grid::TileAddress;
use crate::tilemap::{Tilemap, TileType, set_spec};

verus! {

/// Where a neighbouring cell lies, seen from a cell of the cable.
#[derive(Clone, Copy, Debug, PartialEq, Eq, Structural)]
pub enum Direction {
    North,
    South,
    West,
    East,
}

/// The direction from `primary` to `secondary`, when the two are side by side.
pub open spec fn direction_of(primary: (i32, i32), secondary: (i32, i32)) -> Option<Direction> {
    let dx = primary.0 - secondary.0;
    let dy = primary.1 - secondary.1;
    if dx == 0 && dy == -1 {
        Some(Direction::North)
    } else if dx == 1 && dy == 0 {
        Some(Direction::West)
    } else if dx == 0 && dy == 1 {
        Some(Direction::South)
    } else if dx == -1 && dy == 0 {
        Some(Direction::East)
    } else {
        None
    }
}

/// The direction from `primary` to `secondary`; `None` where the two cells are
/// not side by side.
pub fn delta(primary: &(i32, i32), secondary: &(i32, i32)) -> (r: Option<Direction>)
    ensures
        r == direction_of(*primary, *secondary),
{
    let dx = primary.0 as i64 - secondary.0 as i64;
    let dy = primary.1 as i64 - secondary.1 as i64;
    if dx == 0 && dy == -1 {
        Some(Direction::North)
    } else if dx == 1 && dy == 0 {
        Some(Direction::West)
    } else if dx == 0 && dy == 1 {
        Some(Direction::South)
    } else if dx == -1 && dy == 0 {
        Some(Direction::East)
    } else {
        None
    }
}

/// The cable tile for a cell whose neighbours on the path lie in the given
/// directions: an end cap where one is missing, a straight piece or a corner
/// where both are there, nothing for any other pair.
pub open spec fn piece_for(previous: Option<Direction>, next: Option<Direction>) -> Option<TileType> {
    match (previous, next) {
        (None, Some(d)) | (Some(d), None) => match d {
            Direction::East => Some(TileType::EndEastCable),
            Direction::West => Some(TileType::EndWestCable),
            Direction::South => Some(TileType::EndSouthCable),
            Direction::North => Some(TileType::EndNorthCable),
        },
        (Some(a), Some(b)) => {
            if (a == Direction::West && b == Direction::East) || (a == Direction::East && b
                == Direction::West) {
                Some(TileType::HorizontalCable)
            } else if (a == Direction::South && b == Direction::North) || (a == Direction::North
                && b == Direction::South) {
                Some(TileType::VerticalCable)
            } else if (a == Direction::North && b == Direction::East) || (a == Direction::East && b
                == Direction::North) {
                Some(TileType::NorthEastCable)
            } else if (a == Direction::North && b == Direction::West) || (a == Direction::West && b
                == Direction::North) {
                Some(TileType::NorthWestCable)
            } else if (a == Direction::South && b == Direction::East) || (a == Direction::East && b
                == Direction::South) {
                Some(TileType::SouthEastCable)
            } else if (a == Direction::South && b == Direction::West) || (a == Direction::West && b
                == Direction::South) {
                Some(TileType::SouthWestCable)
            } else {
                None
            }
        },
        (None, None) => None,
    }
}

/// Whether a cable tile is an end cap.
pub open spec fn is_end_piece(t: TileType) -> bool {
    t == TileType::EndEastCable || t == TileType::EndWestCable || t == TileType::EndSouthCable || t
        == TileType::EndNorthCable
}

/// Layer of the cable's body.
pub const CABLE_LAYER: i32 = 1;

/// Layer of the cable's end caps, also taken by towers' markers.
pub const CABLE_END_LAYER: i32 = 3;

/// The layer a cable tile is drawn on: end caps above the body.
pub open spec fn piece_layer(t: TileType) -> i32 {
    if is_end_piece(t) {
        CABLE_END_LAYER
    } else {
        CABLE_LAYER
    }
}

/// Cell `j` of the path seen from cell `i`, or `None` past either end.
pub open spec fn link(path: Seq<(i32, i32)>, i: int, j: int) -> Option<Direction> {
    if 0 <= j < path.len() {
        direction_of(path[i], path[j])
    } else {
        None
    }
}

/// Whether cell `j`, if it is on the path, lies beside cell `i`.
pub open spec fn link_ok(path: Seq<(i32, i32)>, i: int, j: int) -> bool {
    !(0 <= j < path.len()) || direction_of(path[i], path[j]).is_some()
}

/// The tile for cell `i` of the path, if its neighbours admit one.
pub open spec fn cable_piece(path: Seq<(i32, i32)>, i: int) -> Option<TileType> {
    if link_ok(path, i, i - 1) && link_ok(path, i, i + 1) {
        piece_for(link(path, i, i - 1), link(path, i, i + 1))
    } else {
        None
    }
}

/// A path is a cable when every cell has a tile: consecutive cells are side
/// by side, no step turns straight back, and there are at least two cells.
pub open spec fn valid_cable(path: Seq<(i32, i32)>) -> bool {
    &&& path.len() > 0
    &&& forall|i: int| 0 <= i < path.len() ==> (#[trigger] cable_piece(path, i)).is_some()
}

/// The address at which cell `i` of a cable gets its tile.
pub open spec fn piece_address(path: Seq<(i32, i32)>, i: int) -> TileAddress {
    TileAddress { x: path[i].0, y: path[i].1, layer: piece_layer(cable_piece(path, i).unwrap()) }
}

/// The tiles after laying the first `n` cells of a cable, in order.
pub open spec fn lay_cable(m: Map<TileAddress, TileType>, path: Seq<(i32, i32)>, n: nat) -> Map<
    TileAddress,
    TileType,
>
    decreases n,
{
    if n == 0 {
        m
    } else {
        set_spec(
            lay_cable(m, path, (n - 1) as nat),
            piece_address(path, n - 1),
            cable_piece(path, n - 1),
        )
    }
}

/// A path that is not a cable: `index` is its first cell without a tile, or 0
/// for an empty path.
#[derive(Clone, Copy, Debug, PartialEq, Eq, Structural)]
pub struct CableError {
    pub index: usize,
}

/// `index` is the first cell of the path without a tile, or 0 for an empty path.
pub open spec fn first_broken(path: Seq<(i32, i32)>, index: int) -> bool {
    if path.len() == 0 {
        index == 0
    } else {
        &&& 0 <= index < path.len()
        &&& cable_piece(path, index).is_none()
        &&& forall|j: int| 0 <= j < index ==> (#[trigger] cable_piece(path, j)).is_some()
    }
}

fn piece_of(previous: Option<Direction>, next: Option<Direction>) -> (r: Option<TileType>)
    ensures
        r == piece_for(previous, next),
{
    match (previous, next) {
        (None, Some(d)) | (Some(d), None) => match d {
            Direction::East => Some(TileType::EndEastCable),
            Direction::West => Some(TileType::EndWestCable),
            Direction::South => Some(TileType::EndSouthCable),
            Direction::North => Some(TileType::EndNorthCable),
        },
        (Some(a), Some(b)) => match (a, b) {
            (Direction::West, Direction::East) | (Direction::East, Direction::West) => Some(
                TileType::HorizontalCable,
            ),
            (Direction::South, Direction::North) | (Direction::North, Direction::South) => Some(
                TileType::VerticalCable,
            ),
            (Direction::North, Direction::East) | (Direction::East, Direction::North) => Some(
                TileType::NorthEastCable,
            ),
            (Direction::North, Direction::West) | (Direction::West, Direction::North) => Some(
                TileType::NorthWestCable,
            ),
            (Direction::South, Direction::East) | (Direction::East, Direction::South) => Some(
                TileType::SouthEastCable,
            ),
            (Direction::South, Direction::West) | (Direction::West, Direction::South) => Some(
                TileType::SouthWestCable,
            ),
            _ => None,
        },
        (None, None) => None,
    }
}

/// The tile for cell `i` of a path, as `cable_piece` gives it.
pub fn piece_at(path: &Vec<(i32, i32)>, i: usize) -> (r: Option<TileType>)
    requires
        i < path@.len(),
    ensures
        r == cable_piece(path@, i as int),
{
    let previous = if i == 0 {
        None
    } else {
        match delta(&path[i], &path[i - 1]) {
            Some(d) => Some(d),
            None => {
                return None;
            },
        }
    };
    let next = if i >= path.len() - 1 {
        None
    } else {
        match delta(&path[i], &path[i + 1]) {
            Some(d) => Some(d),
            None => {
                return None;
            },
        }
    };
    piece_of(previous, next)
}

fn layer_of(t: TileType) -> (r: i32)
    ensures
        r == piece_layer(t),
{
    match t {
        TileType::EndEastCable | TileType::EndWestCable | TileType::EndSouthCable
        | TileType::EndNorthCable => CABLE_END_LAYER,
        _ => CABLE_LAYER,
    }
}

/// Whether a path is a cable; otherwise the first cell without a tile.
pub fn check_cable(path: &Vec<(i32, i32)>) -> (r: Result<(), CableError>)
    ensures
        r is Ok <==> valid_cable(path@),
        r matches Err(e) ==> first_broken(path@, e.index as int),
{
    if path.len() == 0 {
        return Err(CableError { index: 0 });
    }
    let mut i: usize = 0;
    while i < path.len()
        invariant
            i <= path@.len(),
            forall|j: int| 0 <= j < i ==> (#[trigger] cable_piece(path@, j)).is_some(),
        decreases path@.len() - i,
    {
        if piece_at(path, i).is_none() {
            return Err(CableError { index: i });
        }
        i = i + 1;
    }
    Ok(())
}

/// Lays a cable's tiles on a tile surface, cell by cell from the first.
/// A path that is not a cable breaks the game's invariants; callers test it
/// with `check_cable` first.
pub fn set_cable(tilemap: &mut Tilemap, path: &Vec<(i32, i32)>)
    requires
        old(tilemap).wf(),
        valid_cable(path@),
    ensures
        final(tilemap).wf(),
        final(tilemap).origin() == old(tilemap).origin(),
        final(tilemap)@ == lay_cable(old(tilemap)@, path@, path@.len()),
        final(tilemap).changes() == old(tilemap).changes() + Seq::new(
            path@.len(),
            |i: int| piece_address(path@, i),
        ),
{
    let ghost m0 = tilemap@;
    let ghost c0 = tilemap.changes();
    let mut i: usize = 0;
    while i < path.len()
        invariant
            i <= path@.len(),
            valid_cable(path@),
            tilemap.wf(),
            tilemap.origin() == old(tilemap).origin(),
            tilemap@ == lay_cable(m0, path@, i as nat),
            tilemap.changes() == c0 + Seq::new(i as nat, |j: int| piece_address(path@, j)),
        decreases path@.len() - i,
    {
        let piece = piece_at(path, i);
        assert(cable_piece(path@, i as int).is_some());
        let t = piece.unwrap();
        let address = TileAddress { x: path[i].0, y: path[i].1, layer: layer_of(t) };
        tilemap.set(address, Some(t));
        i = i + 1;
        assert(tilemap.changes() =~= c0 + Seq::new(i as nat, |j: int| piece_address(path@, j)));
    }
}

/// A cell given by two small integers.
pub open spec fn at(x: int, y: int) -> (i32, i32) {
    (x as i32, y as i32)
}

/// The hand-drawn cable shapes the generator picks from.
pub open spec fn template(k: int) -> Seq<(i32, i32)> {
    if k == 0 {
        seq![
            at(-6, -2), at(-5, -2), at(-4, -2), at(-3, -2), at(-2, -2), at(-1, -2), at(-1, -1), at(-1, 0),
            at(-1, 1), at(-1, 2), at(-1, 3), at(-1, 4), at(0, 4), at(1, 4), at(2, 4), at(3, 4), at(4, 4), at(5, 4),
            at(5, 3), at(5, 2), at(5, 1), at(5, 0), at(5, -1), at(5, -2), at(5, -3), at(5, -4), at(5, -5),
            at(5, -6), at(5, -7),
        ]
    } else if k == 1 {
        seq![
            at(-6, 6), at(-5, 6), at(-4, 6), at(-4, 5), at(-4, 4), at(-4, 3), at(-4, 2), at(-4, 1), at(-4, 0),
            at(-3, 0), at(-2, 0), at(-1, 0), at(-1, -1), at(-1, -2), at(0, -2), at(1, -2), at(1, -1), at(1, 0),
            at(1, 1), at(1, 2), at(2, 2), at(3, 2), at(4, 2), at(5, 2), at(6, 2), at(6, 1), at(6, 0), at(7, 0),
        ]
    } else if k == 2 {
        seq![
            at(-8, 1), at(-7, 1), at(-6, 1), at(-5, 1), at(-4, 1), at(-3, 1), at(-3, 0), at(-3, -1), at(-3, -2),
            at(-3, -3), at(-3, -4), at(-2, -4), at(-1, -4), at(0, -4), at(1, -4), at(1, -3), at(1, -2),
            at(1, -1), at(1, 0), at(1, 1), at(1, 2), at(1, 3), at(1, 4), at(1, 5), at(1, 6), at(2, 6), at(3, 6),
            at(4, 6), at(5, 6), at(5, 5), at(5, 4), at(5, 3), at(5, 2), at(5, 1), at(6, 1), at(7, 1),
        ]
    } else {
        seq![
            at(-6, 7), at(-6, 6), at(-6, 5), at(-6, 4), at(-6, 3), at(-6, 2), at(-6, 1), at(-5, 1), at(-4, 1),
            at(-3, 1), at(-2, 1), at(-2, 2), at(-2, 3), at(-2, 4), at(-1, 4), at(0, 4), at(1, 4), at(1, 3),
            at(1, 2), at(1, 1), at(1, 0), at(1, -1), at(1, -2), at(1, -3), at(1, -4), at(2, -4), at(3, -4),
            at(4, -4), at(5, -4), at(6, -4), at(7, -4),
        ]
    }
}

fn template_path(k: usize) -> (r: Vec<(i32, i32)>)
    ensures
        r@ == template(k as int),
{
    let v = if k == 0 {
        vec![
            (-6, -2), (-5, -2), (-4, -2), (-3, -2), (-2, -2), (-1, -2), (-1, -1), (-1, 0),
            (-1, 1), (-1, 2), (-1, 3), (-1, 4), (0, 4), (1, 4), (2, 4), (3, 4), (4, 4), (5, 4),
            (5, 3), (5, 2), (5, 1), (5, 0), (5, -1), (5, -2), (5, -3), (5, -4), (5, -5),
            (5, -6), (5, -7),
        ]
    } else if k == 1 {
        vec![
            (-6, 6), (-5, 6), (-4, 6), (-4, 5), (-4, 4), (-4, 3), (-4, 2), (-4, 1), (-4, 0),
            (-3, 0), (-2, 0), (-1, 0), (-1, -1), (-1, -2), (0, -2), (1, -2), (1, -1), (1, 0),
            (1, 1), (1, 2), (2, 2), (3, 2), (4, 2), (5, 2), (6, 2), (6, 1), (6, 0), (7, 0),
        ]
    } else if k == 2 {
        vec![
            (-8, 1), (-7, 1), (-6, 1), (-5, 1), (-4, 1), (-3, 1), (-3, 0), (-3, -1), (-3, -2),
            (-3, -3), (-3, -4), (-2, -4), (-1, -4), (0, -4), (1, -4), (1, -3), (1, -2),
            (1, -1), (1, 0), (1, 1), (1, 2), (1, 3), (1, 4), (1, 5), (1, 6), (2, 6), (3, 6),
            (4, 6), (5, 6), (5, 5), (5, 4), (5, 3), (5, 2), (5, 1), (6, 1), (7, 1),
        ]
    } else {
        vec![
            (-6, 7), (-6, 6), (-6, 5), (-6, 4), (-6, 3), (-6, 2), (-6, 1), (-5, 1), (-4, 1),
            (-3, 1), (-2, 1), (-2, 2), (-2, 3), (-2, 4), (-1, 4), (0, 4), (1, 4), (1, 3),
            (1, 2), (1, 1), (1, 0), (1, -1), (1, -2), (1, -3), (1, -4), (2, -4), (3, -4),
            (4, -4), (5, -4), (6, -4), (7, -4),
        ]
    };
    assert(v@ =~= template(k as int));
    v
}

/// The state of the seed mixer after `n` rounds: round `i` maps `s` to
/// `(s + i) * 23 mod 100000`.
pub open spec fn mixed(seed: int, n: nat) -> int
    decreases n,
{
    if n == 0 {
        seed
    } else {
        ((mixed(seed, (n - 1) as nat) + n) * 23) % 100000
    }
}

/// The number that a seed is turned into before the path is picked.
pub open spec fn path_choice(seed: int) -> int {
    mixed(seed, 99) + 5
}

/// Which template a mixed seed picks: the ceiling of seven tenths of it, mod 4.
pub open spec fn template_index(s: int) -> int {
    ((7 * s + 9) / 10) % 4
}

/// Whether a mixed seed mirrors the path through the origin.
pub open spec fn flips(s: int) -> bool {
    s % 2 == 1
}

/// Whether a mixed seed swaps the axes: its second bit, independent of the
/// mirroring bit and of the template.
pub open spec fn transposes(s: int) -> bool {
    (s / 2) % 2 == 1
}

/// A path mirrored through the origin.
pub open spec fn flip_cells(p: Seq<(i32, i32)>) -> Seq<(i32, i32)> {
    p.map_values(|c: (i32, i32)| ((-c.0) as i32, (-c.1) as i32))
}

/// A path with its axes swapped.
pub open spec fn transpose_cells(p: Seq<(i32, i32)>) -> Seq<(i32, i32)> {
    p.map_values(|c: (i32, i32)| (c.1, c.0))
}

/// Template `t`, mirrored through the origin if `flip`, then with its axes
/// swapped if `transpose`.
pub open spec fn variant(t: int, flip: bool, transpose: bool) -> Seq<(i32, i32)> {
    let p = template(t);
    let f = if flip {
        flip_cells(p)
    } else {
        p
    };
    if transpose {
        transpose_cells(f)
    } else {
        f
    }
}

/// The path that a seed gives.
pub open spec fn random_path_spec(seed: int) -> Seq<(i32, i32)> {
    let s = path_choice(seed);
    variant(template_index(s), flips(s), transposes(s))
}

/// Every cell lies within 100 of the origin on both axes.
pub open spec fn small_cells(p: Seq<(i32, i32)>) -> bool {
    forall|i: int| 0 <= i < p.len() ==> -100 <= (#[trigger] p[i]).0 <= 100 && -100 <= p[i].1 <= 100
}

proof fn lemma_templates_small(k: int)
    ensures
        small_cells(template(k)),
{
}

proof fn lemma_mix_first(seed: int)
    requires
        seed >= 0,
    ensures
        ((seed % 100000 + 1) * 23) % 100000 == mixed(seed, 1),
{
    assert(mixed(seed, 0) == seed);
    vstd::arithmetic::div_mod::lemma_add_mod_noop(seed, 1, 100000);
    vstd::arithmetic::div_mod::lemma_mul_mod_noop_left(seed % 100000 + 1, 23, 100000);
    vstd::arithmetic::div_mod::lemma_mul_mod_noop_left(seed + 1, 23, 100000);
}

fn flip_path(p: Vec<(i32, i32)>) -> (r: Vec<(i32, i32)>)
    requires
        small_cells(p@),
    ensures
        r@ == flip_cells(p@),
        small_cells(r@),
{
    let mut r: Vec<(i32, i32)> = Vec::new();
    let mut i: usize = 0;
    while i < p.len()
        invariant
            i <= p@.len(),
            small_cells(p@),
            r@ =~= flip_cells(p@).take(i as int),
        decreases p@.len() - i,
    {
        let c = p[i];
        r.push((-c.0, -c.1));
        i = i + 1;
        assert(r@ =~= flip_cells(p@).take(i as int));
    }
    assert(r@ =~= flip_cells(p@));
    r
}

fn transpose_path(p: Vec<(i32, i32)>) -> (r: Vec<(i32, i32)>)
    ensures
        r@ == transpose_cells(p@),
{
    let mut r: Vec<(i32, i32)> = Vec::new();
    let mut i: usize = 0;
    while i < p.len()
        invariant
            i <= p@.len(),
            r@ =~= transpose_cells(p@).take(i as int),
        decreases p@.len() - i,
    {
        let c = p[i];
        r.push((c.1, c.0));
        i = i + 1;
        assert(r@ =~= transpose_cells(p@).take(i as int));
    }
    assert(r@ =~= transpose_cells(p@));
    r
}

/// A cable path drawn from a seed: one of the templates, perhaps mirrored
/// through the origin, perhaps with its axes swapped. The same seed always
/// gives the same path.
pub fn random_path(seed: usize) -> (r: Vec<(i32, i32)>)
    ensures
        r@ == random_path_spec(seed as int),
        valid_cable(r@),
{
    proof {
        lemma_mix_first(seed as int);
        lemma_random_path_valid(seed as int);
    }
    let mut s: usize = (seed % 100000 + 1) * 23 % 100000;
    let mut i: usize = 2;
    while i < 100
        invariant
            2 <= i <= 100,
            s < 100000,
            s == mixed(seed as int, (i - 1) as nat),
        decreases 100 - i,
    {
        s = (s + i) * 23 % 100000;
        i = i + 1;
    }
    s = s + 5;
    let k = ((7 * s + 9) / 10) % 4;
    let path = template_path(k);
    proof {
        lemma_templates_small(k as int);
    }
    let flipped = if s % 2 == 1 {
        flip_path(path)
    } else {
        path
    };
    if (s / 2) % 2 == 1 {
        transpose_path(flipped)
    } else {
        flipped
    }
}

/// Equal seeds give equal paths.
pub proof fn lemma_random_path_deterministic(a: usize, b: usize)
    requires
        a == b,
    ensures
        random_path_spec(a as int) == random_path_spec(b as int),
{
}

proof fn lemma_template_0_valid()
    ensures
        valid_cable(template(0)),
{
    let p = template(0);
    assert forall|i: int| 0 <= i < p.len() implies (#[trigger] cable_piece(p, i)).is_some() by {
        if i == 0 {
            assert(cable_piece(p, 0).is_some());
        } else if i == 1 {
            assert(cable_piece(p, 1).is_some());
        } else if i == 2 {
            assert(cable_piece(p, 2).is_some());
        } else if i == 3 {
            assert(cable_piece(p, 3).is_some());
        } else if i == 4 {
            assert(cable_piece(p, 4).is_some());
        } else if i == 5 {
            assert(cable_piece(p, 5).is_some());
        } else if i == 6 {
            assert(cable_piece(p, 6).is_some());
        } else if i == 7 {
            assert(cable_piece(p, 7).is_some());
        } else if i == 8 {
            assert(cable_piece(p, 8).is_some());
        } else if i == 9 {
            assert(cable_piece(p, 9).is_some());
        } else if i == 10 {
            assert(cable_piece(p, 10).is_some());
        } else if i == 11 {
            assert(cable_piece(p, 11).is_some());
        } else if i == 12 {
            assert(cable_piece(p, 12).is_some());
        } else if i == 13 {
            assert(cable_piece(p, 13).is_some());
        } else if i == 14 {
            assert(cable_piece(p, 14).is_some());
        } else if i == 15 {
            assert(cable_piece(p, 15).is_some());
        } else if i == 16 {
            assert(cable_piece(p, 16).is_some());
        } else if i == 17 {
            assert(cable_piece(p, 17).is_some());
        } else if i == 18 {
            assert(cable_piece(p, 18).is_some());
        } else if i == 19 {
            assert(cable_piece(p, 19).is_some());
        } else if i == 20 {
            assert(cable_piece(p, 20).is_some());
        } else if i == 21 {
            assert(cable_piece(p, 21).is_some());
        } else if i == 22 {
            assert(cable_piece(p, 22).is_some());
        } else if i == 23 {
            assert(cable_piece(p, 23).is_some());
        } else if i == 24 {
            assert(cable_piece(p, 24).is_some());
        } else if i == 25 {
            assert(cable_piece(p, 25).is_some());
        } else if i == 26 {
            assert(cable_piece(p, 26).is_some());
        } else if i == 27 {
            assert(cable_piece(p, 27).is_some());
        } else if i == 28 {
            assert(cable_piece(p, 28).is_some());
        }
    }
}

proof fn lemma_template_1_valid()
    ensures
        valid_cable(template(1)),
{
    let p = template(1);
    assert forall|i: int| 0 <= i < p.len() implies (#[trigger] cable_piece(p, i)).is_some() by {
        if i == 0 {
            assert(cable_piece(p, 0).is_some());
        } else if i == 1 {
            assert(cable_piece(p, 1).is_some());
        } else if i == 2 {
            assert(cable_piece(p, 2).is_some());
        } else if i == 3 {
            assert(cable_piece(p, 3).is_some());
        } else if i == 4 {
            assert(cable_piece(p, 4).is_some());
        } else if i == 5 {
            assert(cable_piece(p, 5).is_some());
        } else if i == 6 {
            assert(cable_piece(p, 6).is_some());
        } else if i == 7 {
            assert(cable_piece(p, 7).is_some());
        } else if i == 8 {
            assert(cable_piece(p, 8).is_some());
        } else if i == 9 {
            assert(cable_piece(p, 9).is_some());
        } else if i == 10 {
            assert(cable_piece(p, 10).is_some());
        } else if i == 11 {
            assert(cable_piece(p, 11).is_some());
        } else if i == 12 {
            assert(cable_piece(p, 12).is_some());
        } else if i == 13 {
            assert(cable_piece(p, 13).is_some());
        } else if i == 14 {
            assert(cable_piece(p, 14).is_some());
        } else if i == 15 {
            assert(cable_piece(p, 15).is_some());
        } else if i == 16 {
            assert(cable_piece(p, 16).is_some());
        } else if i == 17 {
            assert(cable_piece(p, 17).is_some());
        } else if i == 18 {
            assert(cable_piece(p, 18).is_some());
        } else if i == 19 {
            assert(cable_piece(p, 19).is_some());
        } else if i == 20 {
            assert(cable_piece(p, 20).is_some());
        } else if i == 21 {
            assert(cable_piece(p, 21).is_some());
        } else if i == 22 {
            assert(cable_piece(p, 22).is_some());
        } else if i == 23 {
            assert(cable_piece(p, 23).is_some());
        } else if i == 24 {
            assert(cable_piece(p, 24).is_some());
        } else if i == 25 {
            assert(cable_piece(p, 25).is_some());
        } else if i == 26 {
            assert(cable_piece(p, 26).is_some());
        } else if i == 27 {
            assert(cable_piece(p, 27).is_some());
        }
    }
}

proof fn lemma_template_2_valid()
    ensures
        valid_cable(template(2)),
{
    let p = template(2);
    assert forall|i: int| 0 <= i < p.len() implies (#[trigger] cable_piece(p, i)).is_some() by {
        if i == 0 {
            assert(cable_piece(p, 0).is_some());
        } else if i == 1 {
            assert(cable_piece(p, 1).is_some());
        } else if i == 2 {
            assert(cable_piece(p, 2).is_some());
        } else if i == 3 {
            assert(cable_piece(p, 3).is_some());
        } else if i == 4 {
            assert(cable_piece(p, 4).is_some());
        } else if i == 5 {
            assert(cable_piece(p, 5).is_some());
        } else if i == 6 {
            assert(cable_piece(p, 6).is_some());
        } else if i == 7 {
            assert(cable_piece(p, 7).is_some());
        } else if i == 8 {
            assert(cable_piece(p, 8).is_some());
        } else if i == 9 {
            assert(cable_piece(p, 9).is_some());
        } else if i == 10 {
            assert(cable_piece(p, 10).is_some());
        } else if i == 11 {
            assert(cable_piece(p, 11).is_some());
        } else if i == 12 {
            assert(cable_piece(p, 12).is_some());
        } else if i == 13 {
            assert(cable_piece(p, 13).is_some());
        } else if i == 14 {
            assert(cable_piece(p, 14).is_some());
        } else if i == 15 {
            assert(cable_piece(p, 15).is_some());
        } else if i == 16 {
            assert(cable_piece(p, 16).is_some());
        } else if i == 17 {
            assert(cable_piece(p, 17).is_some());
        } else if i == 18 {
            assert(cable_piece(p, 18).is_some());
        } else if i == 19 {
            assert(cable_piece(p, 19).is_some());
        } else if i == 20 {
            assert(cable_piece(p, 20).is_some());
        } else if i == 21 {
            assert(cable_piece(p, 21).is_some());
        } else if i == 22 {
            assert(cable_piece(p, 22).is_some());
        } else if i == 23 {
            assert(cable_piece(p, 23).is_some());
        } else if i == 24 {
            assert(cable_piece(p, 24).is_some());
        } else if i == 25 {
            assert(cable_piece(p, 25).is_some());
        } else if i == 26 {
            assert(cable_piece(p, 26).is_some());
        } else if i == 27 {
            assert(cable_piece(p, 27).is_some());
        } else if i == 28 {
            assert(cable_piece(p, 28).is_some());
        } else if i == 29 {
            assert(cable_piece(p, 29).is_some());
        } else if i == 30 {
            assert(cable_piece(p, 30).is_some());
        } else if i == 31 {
            assert(cable_piece(p, 31).is_some());
        } else if i == 32 {
            assert(cable_piece(p, 32).is_some());
        } else if i == 33 {
            assert(cable_piece(p, 33).is_some());
        } else if i == 34 {
            assert(cable_piece(p, 34).is_some());
        } else if i == 35 {
            assert(cable_piece(p, 35).is_some());
        }
    }
}

proof fn lemma_template_3_valid()
    ensures
        valid_cable(template(3)),
{
    let p = template(3);
    assert forall|i: int| 0 <= i < p.len() implies (#[trigger] cable_piece(p, i)).is_some() by {
        if i == 0 {
            assert(cable_piece(p, 0).is_some());
        } else if i == 1 {
            assert(cable_piece(p, 1).is_some());
        } else if i == 2 {
            assert(cable_piece(p, 2).is_some());
        } else if i == 3 {
            assert(cable_piece(p, 3).is_some());
        } else if i == 4 {
            assert(cable_piece(p, 4).is_some());
        } else if i == 5 {
            assert(cable_piece(p, 5).is_some());
        } else if i == 6 {
            assert(cable_piece(p, 6).is_some());
        } else if i == 7 {
            assert(cable_piece(p, 7).is_some());
        } else if i == 8 {
            assert(cable_piece(p, 8).is_some());
        } else if i == 9 {
            assert(cable_piece(p, 9).is_some());
        } else if i == 10 {
            assert(cable_piece(p, 10).is_some());
        } else if i == 11 {
            assert(cable_piece(p, 11).is_some());
        } else if i == 12 {
            assert(cable_piece(p, 12).is_some());
        } else if i == 13 {
            assert(cable_piece(p, 13).is_some());
        } else if i == 14 {
            assert(cable_piece(p, 14).is_some());
        } else if i == 15 {
            assert(cable_piece(p, 15).is_some());
        } else if i == 16 {
            assert(cable_piece(p, 16).is_some());
        } else if i == 17 {
            assert(cable_piece(p, 17).is_some());
        } else if i == 18 {
            assert(cable_piece(p, 18).is_some());
        } else if i == 19 {
            assert(cable_piece(p, 19).is_some());
        } else if i == 20 {
            assert(cable_piece(p, 20).is_some());
        } else if i == 21 {
            assert(cable_piece(p, 21).is_some());
        } else if i == 22 {
            assert(cable_piece(p, 22).is_some());
        } else if i == 23 {
            assert(cable_piece(p, 23).is_some());
        } else if i == 24 {
            assert(cable_piece(p, 24).is_some());
        } else if i == 25 {
            assert(cable_piece(p, 25).is_some());
        } else if i == 26 {
            assert(cable_piece(p, 26).is_some());
        } else if i == 27 {
            assert(cable_piece(p, 27).is_some());
        } else if i == 28 {
            assert(cable_piece(p, 28).is_some());
        } else if i == 29 {
            assert(cable_piece(p, 29).is_some());
        } else if i == 30 {
            assert(cable_piece(p, 30).is_some());
        }
    }
}

/// Every template is a cable.
proof fn lemma_templates_valid(k: int)
    ensures
        valid_cable(template(k)),
{
    if k == 0 {
        lemma_template_0_valid();
    } else if k == 1 {
        lemma_template_1_valid();
    } else if k == 2 {
        lemma_template_2_valid();
    } else {
        lemma_template_3_valid();
    }
}

/// A cell has a tile exactly when not both neighbours are missing and the
/// two do not lie the same way.
proof fn lemma_piece_some(a: Option<Direction>, b: Option<Direction>)
    ensures
        piece_for(a, b).is_some() <==> !(a is None && b is None) && a != b,
{
}

/// A direction seen through a mirror at the origin.
pub open spec fn opposite(d: Option<Direction>) -> Option<Direction> {
    match d {
        Some(Direction::North) => Some(Direction::South),
        Some(Direction::South) => Some(Direction::North),
        Some(Direction::West) => Some(Direction::East),
        Some(Direction::East) => Some(Direction::West),
        None => None,
    }
}

/// A direction with the axes swapped.
pub open spec fn swapped(d: Option<Direction>) -> Option<Direction> {
    match d {
        Some(Direction::North) => Some(Direction::East),
        Some(Direction::East) => Some(Direction::North),
        Some(Direction::West) => Some(Direction::South),
        Some(Direction::South) => Some(Direction::West),
        None => None,
    }
}

proof fn lemma_flip_valid(p: Seq<(i32, i32)>)
    requires
        small_cells(p),
        valid_cable(p),
    ensures
        valid_cable(flip_cells(p)),
        small_cells(flip_cells(p)),
{
    let f = flip_cells(p);
    assert forall|i: int, j: int| 0 <= i < p.len() && 0 <= j < p.len() implies #[trigger] direction_of(
        f[i],
        f[j],
    ) == opposite(direction_of(p[i], p[j])) by {
        assert(f[i] == ((-p[i].0) as i32, (-p[i].1) as i32));
        assert(f[j] == ((-p[j].0) as i32, (-p[j].1) as i32));
    }
    assert forall|i: int| 0 <= i < f.len() implies (#[trigger] cable_piece(f, i)).is_some() by {
        assert(cable_piece(p, i).is_some());
        lemma_piece_some(link(p, i, i - 1), link(p, i, i + 1));
        lemma_piece_some(link(f, i, i - 1), link(f, i, i + 1));
    }
    assert forall|i: int| 0 <= i < f.len() implies -100 <= (#[trigger] f[i]).0 <= 100 && -100
        <= f[i].1 <= 100 by {
        assert(f[i] == ((-p[i].0) as i32, (-p[i].1) as i32));
    }
}

proof fn lemma_transpose_valid(p: Seq<(i32, i32)>)
    requires
        valid_cable(p),
    ensures
        valid_cable(transpose_cells(p)),
{
    let f = transpose_cells(p);
    assert forall|i: int, j: int| 0 <= i < p.len() && 0 <= j < p.len() implies #[trigger] direction_of(
        f[i],
        f[j],
    ) == swapped(direction_of(p[i], p[j])) by {
        assert(f[i] == (p[i].1, p[i].0));
        assert(f[j] == (p[j].1, p[j].0));
    }
    assert forall|i: int| 0 <= i < f.len() implies (#[trigger] cable_piece(f, i)).is_some() by {
        assert(cable_piece(p, i).is_some());
        lemma_piece_some(link(p, i, i - 1), link(p, i, i + 1));
        lemma_piece_some(link(f, i, i - 1), link(f, i, i + 1));
    }
}

/// Every seed gives a cable.
pub proof fn lemma_random_path_valid(seed: int)
    ensures
        valid_cable(random_path_spec(seed)),
{
    let s = path_choice(seed);
    let p = template(template_index(s));
    lemma_templates_valid(template_index(s));
    lemma_templates_small(template_index(s));
    if flips(s) {
        lemma_flip_valid(p);
        if transposes(s) {
            lemma_transpose_valid(flip_cells(p));
        }
    } else if transposes(s) {
        lemma_transpose_valid(p);
    }
}


/// The multiplier and the addend of `n` mixing rounds, modulo 100000: the
/// rounds are affine, so `mixed(seed, n)` is `a * seed + c` modulo 100000.
pub open spec fn mix_coeffs(n: nat) -> (int, int)
    decreases n,
{
    if n == 0 {
        (1, 0)
    } else {
        let (a, c) = mix_coeffs((n - 1) as nat);
        ((23 * a) % 100000, (23 * (c + n)) % 100000)
    }
}

proof fn lemma_mix_step(x: int, n: int, a: int, c: int, seed: int)
    requires
        x == a * seed + c,
    ensures
        ((x % 100000 + n) * 23) % 100000 == ((23 * a % 100000) * seed + (23 * (c + n)) % 100000)
            % 100000,
{
    let m = 100000int;
    let w = 23 * (c + n);
    let u = 23 * a % m;
    vstd::arithmetic::div_mod::lemma_add_mod_noop_right(n, x, m);
    assert((x % m + n) % m == (x + n) % m);
    vstd::arithmetic::div_mod::lemma_mul_mod_noop_left(x % m + n, 23, m);
    vstd::arithmetic::div_mod::lemma_mul_mod_noop_left(x + n, 23, m);
    assert(((x % m + n) * 23) % m == ((x + n) * 23) % m);
    assert((x + n) * 23 == 23 * a * seed + w) by (nonlinear_arith)
        requires
            x == a * seed + c,
            w == 23 * (c + n),
    ;
    vstd::arithmetic::div_mod::lemma_add_mod_noop_right(u * seed, w, m);
    vstd::arithmetic::div_mod::lemma_mul_mod_noop_left(23 * a, seed, m);
    vstd::arithmetic::div_mod::lemma_add_mod_noop(u * seed, w, m);
    vstd::arithmetic::div_mod::lemma_add_mod_noop(23 * a * seed, w, m);
    assert(23 * a * seed == (23 * a) * seed) by (nonlinear_arith);
}

proof fn lemma_mixed_affine(seed: int, n: nat)
    requires
        0 <= seed < 100000,
    ensures
        mixed(seed, n) == (mix_coeffs(n).0 * seed + mix_coeffs(n).1) % 100000,
    decreases n,
{
    if n == 0 {
        vstd::arithmetic::div_mod::lemma_small_mod(seed as nat, 100000);
    } else {
        lemma_mixed_affine(seed, (n - 1) as nat);
        let (a, c) = mix_coeffs((n - 1) as nat);
        lemma_mix_step(a * seed + c, n as int, a, c, seed);
    }
}

proof fn lemma_mix_coeffs_99()
    ensures
        mix_coeffs(99) == (38087int, 92350int),
{
    assert(mix_coeffs(0) == (1int, 0int));
    assert(mix_coeffs(1) == (23int, 23int));
    assert(mix_coeffs(2) == (529int, 575int));
    assert(mix_coeffs(3) == (12167int, 13294int));
    assert(mix_coeffs(4) == (79841int, 5854int));
    assert(mix_coeffs(5) == (36343int, 34757int));
    assert(mix_coeffs(6) == (35889int, 99549int));
    assert(mix_coeffs(7) == (25447int, 89788int));
    assert(mix_coeffs(8) == (85281int, 65308int));
    assert(mix_coeffs(9) == (61463int, 2291int));
    assert(mix_coeffs(10) == (13649int, 52923int));
    assert(mix_coeffs(11) == (13927int, 17482int));
    assert(mix_coeffs(12) == (20321int, 2362int));
    assert(mix_coeffs(13) == (67383int, 54625int));
    assert(mix_coeffs(14) == (49809int, 56697int));
    assert(mix_coeffs(15) == (45607int, 4376int));
    assert(mix_coeffs(16) == (48961int, 1016int));
    assert(mix_coeffs(17) == (26103int, 23759int));
    assert(mix_coeffs(18) == (369int, 46871int));
    assert(mix_coeffs(19) == (8487int, 78470int));
    assert(mix_coeffs(20) == (95201int, 5270int));
    assert(mix_coeffs(21) == (89623int, 21693int));
    assert(mix_coeffs(22) == (61329int, 99445int));
    assert(mix_coeffs(23) == (10567int, 87764int));
    assert(mix_coeffs(24) == (43041int, 19124int));
    assert(mix_coeffs(25) == (89943int, 40427int));
    assert(mix_coeffs(26) == (68689int, 30419int));
    assert(mix_coeffs(27) == (79847int, 258int));
    assert(mix_coeffs(28) == (36481int, 6578int));
    assert(mix_coeffs(29) == (39063int, 51961int));
    assert(mix_coeffs(30) == (98449int, 95793int));
    assert(mix_coeffs(31) == (64327int, 3952int));
    assert(mix_coeffs(32) == (79521int, 91632int));
    assert(mix_coeffs(33) == (28983int, 8295int));
    assert(mix_coeffs(34) == (66609int, 91567int));
    assert(mix_coeffs(35) == (32007int, 6846int));
    assert(mix_coeffs(36) == (36161int, 58286int));
    assert(mix_coeffs(37) == (31703int, 41429int));
    assert(mix_coeffs(38) == (29169int, 53741int));
    assert(mix_coeffs(39) == (70887int, 36940int));
    assert(mix_coeffs(40) == (30401int, 50540int));
    assert(mix_coeffs(41) == (99223int, 63363int));
    assert(mix_coeffs(42) == (82129int, 58315int));
    assert(mix_coeffs(43) == (88967int, 42234int));
    assert(mix_coeffs(44) == (46241int, 72394int));
    assert(mix_coeffs(45) == (63543int, 66097int));
    assert(mix_coeffs(46) == (61489int, 21289int));
    assert(mix_coeffs(47) == (14247int, 90728int));
    assert(mix_coeffs(48) == (27681int, 87848int));
    assert(mix_coeffs(49) == (36663int, 21631int));
    assert(mix_coeffs(50) == (43249int, 98663int));
    assert(mix_coeffs(51) == (94727int, 70422int));
    assert(mix_coeffs(52) == (78721int, 20902int));
    assert(mix_coeffs(53) == (10583int, 81965int));
    assert(mix_coeffs(54) == (43409int, 86437int));
    assert(mix_coeffs(55) == (98407int, 89316int));
    assert(mix_coeffs(56) == (63361int, 55556int));
    assert(mix_coeffs(57) == (57303int, 79099int));
    assert(mix_coeffs(58) == (17969int, 20611int));
    assert(mix_coeffs(59) == (13287int, 75410int));
    assert(mix_coeffs(60) == (5601int, 35810int));
    assert(mix_coeffs(61) == (28823int, 25033int));
    assert(mix_coeffs(62) == (62929int, 77185int));
    assert(mix_coeffs(63) == (47367int, 76704int));
    assert(mix_coeffs(64) == (89441int, 65664int));
    assert(mix_coeffs(65) == (57143int, 11767int));
    assert(mix_coeffs(66) == (14289int, 72159int));
    assert(mix_coeffs(67) == (28647int, 61198int));
    assert(mix_coeffs(68) == (58881int, 9118int));
    assert(mix_coeffs(69) == (54263int, 11301int));
    assert(mix_coeffs(70) == (48049int, 61533int));
    assert(mix_coeffs(71) == (5127int, 16892int));
    assert(mix_coeffs(72) == (17921int, 90172int));
    assert(mix_coeffs(73) == (12183int, 75635int));
    assert(mix_coeffs(74) == (80209int, 41307int));
    assert(mix_coeffs(75) == (44807int, 51786int));
    assert(mix_coeffs(76) == (30561int, 92826int));
    assert(mix_coeffs(77) == (2903int, 36769int));
    assert(mix_coeffs(78) == (66769int, 47481int));
    assert(mix_coeffs(79) == (35687int, 93880int));
    assert(mix_coeffs(80) == (20801int, 61080int));
    assert(mix_coeffs(81) == (78423int, 6703int));
    assert(mix_coeffs(82) == (3729int, 56055int));
    assert(mix_coeffs(83) == (85767int, 91174int));
    assert(mix_coeffs(84) == (72641int, 98934int));
    assert(mix_coeffs(85) == (70743int, 77437int));
    assert(mix_coeffs(86) == (27089int, 83029int));
    assert(mix_coeffs(87) == (23047int, 11668int));
    assert(mix_coeffs(88) == (30081int, 70388int));
    assert(mix_coeffs(89) == (91863int, 20971int));
    assert(mix_coeffs(90) == (12849int, 84403int));
    assert(mix_coeffs(91) == (95527int, 43362int));
    assert(mix_coeffs(92) == (97121int, 99442int));
    assert(mix_coeffs(93) == (33783int, 89305int));
    assert(mix_coeffs(94) == (77009int, 56177int));
    assert(mix_coeffs(95) == (71207int, 94256int));
    assert(mix_coeffs(96) == (37761int, 70096int));
    assert(mix_coeffs(97) == (68503int, 14439int));
    assert(mix_coeffs(98) == (75569int, 34351int));
    assert(mix_coeffs(99) == (38087int, 92350int));
}

/// The mixed seed in closed form.
proof fn lemma_path_choice(seed: int)
    requires
        0 <= seed < 100000,
    ensures
        path_choice(seed) == (38087 * seed + 92350) % 100000 + 5,
{
    lemma_mix_coeffs_99();
    lemma_mixed_affine(seed, 99);
}


proof fn lemma_seed_3()
    ensures
        random_path_spec(3) == variant(0, false, false),
{
    lemma_path_choice(3);
    assert(path_choice(3) == 6616);
    assert(template_index(6616) == 0);
}

proof fn lemma_seed_17()
    ensures
        random_path_spec(17) == variant(0, false, true),
{
    lemma_path_choice(17);
    assert(path_choice(17) == 39834);
    assert(template_index(39834) == 0);
}

proof fn lemma_seed_26()
    ensures
        random_path_spec(26) == variant(0, true, false),
{
    lemma_path_choice(26);
    assert(path_choice(26) == 82617);
    assert(template_index(82617) == 0);
}

proof fn lemma_seed_8()
    ensures
        random_path_spec(8) == variant(0, true, true),
{
    lemma_path_choice(8);
    assert(path_choice(8) == 97051);
    assert(template_index(97051) == 0);
}

proof fn lemma_seed_27()
    ensures
        random_path_spec(27) == variant(1, false, false),
{
    lemma_path_choice(27);
    assert(path_choice(27) == 20704);
    assert(template_index(20704) == 1);
}

proof fn lemma_seed_5()
    ensures
        random_path_spec(5) == variant(1, false, true),
{
    lemma_path_choice(5);
    assert(path_choice(5) == 82790);
    assert(template_index(82790) == 1);
}

proof fn lemma_seed_18()
    ensures
        random_path_spec(18) == variant(1, true, false),
{
    lemma_path_choice(18);
    assert(path_choice(18) == 77921);
    assert(template_index(77921) == 1);
}

proof fn lemma_seed_0()
    ensures
        random_path_spec(0) == variant(1, true, true),
{
    lemma_path_choice(0);
    assert(path_choice(0) == 92355);
    assert(template_index(92355) == 1);
}

proof fn lemma_seed_15()
    ensures
        random_path_spec(15) == variant(2, false, false),
{
    lemma_path_choice(15);
    assert(path_choice(15) == 63660);
    assert(template_index(63660) == 2);
}

proof fn lemma_seed_1()
    ensures
        random_path_spec(1) == variant(2, false, true),
{
    lemma_path_choice(1);
    assert(path_choice(1) == 30442);
    assert(template_index(30442) == 2);
}

proof fn lemma_seed_6()
    ensures
        random_path_spec(6) == variant(2, true, false),
{
    lemma_path_choice(6);
    assert(path_choice(6) == 20877);
    assert(template_index(20877) == 2);
}

proof fn lemma_seed_28()
    ensures
        random_path_spec(28) == variant(2, true, true),
{
    lemma_path_choice(28);
    assert(path_choice(28) == 58791);
    assert(template_index(58791) == 2);
}

proof fn lemma_seed_7()
    ensures
        random_path_spec(7) == variant(3, false, false),
{
    lemma_path_choice(7);
    assert(path_choice(7) == 58964);
    assert(template_index(58964) == 3);
}

proof fn lemma_seed_25()
    ensures
        random_path_spec(25) == variant(3, false, true),
{
    lemma_path_choice(25);
    assert(path_choice(25) == 44530);
    assert(template_index(44530) == 3);
}

proof fn lemma_seed_2()
    ensures
        random_path_spec(2) == variant(3, true, false),
{
    lemma_path_choice(2);
    assert(path_choice(2) == 68529);
    assert(template_index(68529) == 3);
}

proof fn lemma_seed_16()
    ensures
        random_path_spec(16) == variant(3, true, true),
{
    lemma_path_choice(16);
    assert(path_choice(16) == 1747);
    assert(template_index(1747) == 3);
}

/// Every template, mirrored or not and transposed or not, comes out of some
/// seed below 100000.
pub proof fn lemma_random_path_covers(t: int, flip: bool, transpose: bool)
    requires
        0 <= t < 4,
    ensures
        exists|seed: int| 0 <= seed < 100000 && #[trigger] random_path_spec(seed) == variant(t, flip, transpose),
{
    if t == 0 && flip == false && transpose == false {
        lemma_seed_3();
        assert(random_path_spec(3) == variant(t, flip, transpose));
    } else if t == 0 && flip == false && transpose == true {
        lemma_seed_17();
        assert(random_path_spec(17) == variant(t, flip, transpose));
    } else if t == 0 && flip == true && transpose == false {
        lemma_seed_26();
        assert(random_path_spec(26) == variant(t, flip, transpose));
    } else if t == 0 && flip == true && transpose == true {
        lemma_seed_8();
        assert(random_path_spec(8) == variant(t, flip, transpose));
    } else if t == 1 && flip == false && transpose == false {
        lemma_seed_27();
        assert(random_path_spec(27) == variant(t, flip, transpose));
    } else if t == 1 && flip == false && transpose == true {
        lemma_seed_5();
        assert(random_path_spec(5) == variant(t, flip, transpose));
    } else if t == 1 && flip == true && transpose == false {
        lemma_seed_18();
        assert(random_path_spec(18) == variant(t, flip, transpose));
    } else if t == 1 && flip == true && transpose == true {
        lemma_seed_0();
        assert(random_path_spec(0) == variant(t, flip, transpose));
    } else if t == 2 && flip == false && transpose == false {
        lemma_seed_15();
        assert(random_path_spec(15) == variant(t, flip, transpose));
    } else if t == 2 && flip == false && transpose == true {
        lemma_seed_1();
        assert(random_path_spec(1) == variant(t, flip, transpose));
    } else if t == 2 && flip == true && transpose == false {
        lemma_seed_6();
        assert(random_path_spec(6) == variant(t, flip, transpose));
    } else if t == 2 && flip == true && transpose == true {
        lemma_seed_28();
        assert(random_path_spec(28) == variant(t, flip, transpose));
    } else if t == 3 && flip == false && transpose == false {
        lemma_seed_7();
        assert(random_path_spec(7) == variant(t, flip, transpose));
    } else if t == 3 && flip == false && transpose == true {
        lemma_seed_25();
        assert(random_path_spec(25) == variant(t, flip, transpose));
    } else if t == 3 && flip == true && transpose == false {
        lemma_seed_2();
        assert(random_path_spec(2) == variant(t, flip, transpose));
    } else if t == 3 && flip == true && transpose == true {
        lemma_seed_16();
        assert(random_path_spec(16) == variant(t, flip, transpose));
    }
}

} // verus!
