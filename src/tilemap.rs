//! The tile surface of a level: a sparse map from tile address to tile.
use vstd::prelude::*;
use crate::grid::{TileAddress, WorldPos, offset_ok, center_of, cell_of, grid_to_world, world_to_grid};

verus! {

/// What a tile shows. Presentation maps each kind to its picture.
#[derive(Clone, Copy, Debug, PartialEq, Eq, Hash, Structural)]
pub enum TileType {
    EndEastCable,
    EndWestCable,
    EndSouthCable,
    EndNorthCable,
    HorizontalCable,
    VerticalCable,
    NorthWestCable,
    NorthEastCable,
    SouthWestCable,
    SouthEastCable,
    SelectionBigger,
    SelectionSmaller,
    ResistorTower,
    CapacitorTower,
    Transistor,
    LedOff,
    LedOn,
    Servo1,
    Servo2,
    Servo3,
    Servo4,
    Wind1,
    Wind2,
    Wind3,
    Delete1,
    Delete2,
    Delete3,
    Delete4,
    Donate1,
    Donate2,
    Donate3,
    Donate4,
    StepInto1,
    StepInto2,
    StepInto3,
    StepInto4,
    StepOut1,
    StepOut2,
    StepOut3,
    StepOut4,
    Continue1,
    Continue2,
    Continue3,
    Continue4,
    SoundButton,
    HelpButton,
}

/// One placed tile.
#[derive(Clone, Copy, Debug, PartialEq, Eq, Structural)]
pub struct TileEntry {
    pub address: TileAddress,
    pub tile: TileType,
}

/// The map after setting `address` to `tile`, or clearing it for `None`.
pub open spec fn set_spec(
    m: Map<TileAddress, TileType>,
    address: TileAddress,
    tile: Option<TileType>,
) -> Map<TileAddress, TileType> {
    match tile {
        Some(t) => m.insert(address, t),
        None => m.remove(address),
    }
}

/// Whether an entry has address `a`.
pub open spec fn holds_address(s: Seq<TileEntry>, a: TileAddress) -> bool {
    exists|i: int| 0 <= i < s.len() && (#[trigger] s[i]).address == a
}

/// No two entries share an address.
pub open spec fn unique_addresses(s: Seq<TileEntry>) -> bool {
    forall|i: int, j: int|
        0 <= i < s.len() && 0 <= j < s.len() && i != j ==> (#[trigger] s[i]).address != (
        #[trigger] s[j]).address
}

/// The tile that a list of unique entries holds at `a`.
pub open spec fn entry_tile(s: Seq<TileEntry>, a: TileAddress) -> TileType {
    s[choose|i: int| 0 <= i < s.len() && (#[trigger] s[i]).address == a].tile
}

/// The map that a list of entries with unique addresses stands for.
pub open spec fn entries_map(s: Seq<TileEntry>) -> Map<TileAddress, TileType> {
    Map::new(|a: TileAddress| holds_address(s, a), |a: TileAddress| entry_tile(s, a))
}

proof fn lemma_entry_at(s: Seq<TileEntry>, i: int)
    requires
        unique_addresses(s),
        0 <= i < s.len(),
    ensures
        entries_map(s).contains_key(s[i].address),
        entries_map(s)[s[i].address] == s[i].tile,
{
    let a = s[i].address;
    assert(holds_address(s, a));
    let j = choose|j: int| 0 <= j < s.len() && (#[trigger] s[j]).address == a;
    assert(j == i);
}

/// A level's tiles, with the addresses changed since presentation last looked.
pub struct Tilemap {
    entries: Vec<TileEntry>,
    changed: Vec<TileAddress>,
    offset: WorldPos,
}

impl View for Tilemap {
    type V = Map<TileAddress, TileType>;

    closed spec fn view(&self) -> Map<TileAddress, TileType> {
        entries_map(self.entries@)
    }
}

impl Tilemap {
    /// At most one tile per address.
    pub closed spec fn wf(&self) -> bool {
        unique_addresses(self.entries@)
    }

    /// Addresses set since the last `take_changes`, oldest first.
    pub closed spec fn changes(&self) -> Seq<TileAddress> {
        self.changed@
    }

    /// Where the level is drawn in the world.
    pub closed spec fn origin(&self) -> WorldPos {
        self.offset
    }

    /// Where the level is drawn in the world.
    pub fn offset(&self) -> (r: WorldPos)
        ensures
            r == self.origin(),
    {
        self.offset
    }

    /// An empty surface for a level drawn at `offset`.
    pub fn new(offset: WorldPos) -> (r: Tilemap)
        ensures
            r.wf(),
            r@ == Map::<TileAddress, TileType>::empty(),
            r.changes() == Seq::<TileAddress>::empty(),
            r.origin() == offset,
    {
        let r = Tilemap { entries: Vec::new(), changed: Vec::new(), offset };
        assert(r@ =~= Map::<TileAddress, TileType>::empty());
        r
    }

    fn find(&self, address: TileAddress) -> (r: Option<usize>)
        ensures
            match r {
                Some(i) => i < self.entries@.len() && self.entries@[i as int].address == address,
                None => !holds_address(self.entries@, address),
            },
    {
        let mut i: usize = 0;
        while i < self.entries.len()
            invariant
                i <= self.entries@.len(),
                forall|j: int| 0 <= j < i ==> (#[trigger] self.entries@[j]).address != address,
            decreases self.entries@.len() - i,
        {
            if self.entries[i].address == address {
                return Some(i);
            }
            i = i + 1;
        }
        None
    }

    /// The tile at an address, if any.
    pub fn get(&self, address: TileAddress) -> (r: Option<TileType>)
        requires
            self.wf(),
        ensures
            r == (if self@.contains_key(address) {
                Some(self@[address])
            } else {
                None::<TileType>
            }),
    {
        match self.find(address) {
            Some(i) => {
                proof {
                    lemma_entry_at(self.entries@, i as int);
                }
                Some(self.entries[i].tile)
            },
            None => None,
        }
    }

    /// Whether an address holds a tile.
    pub fn is_occupied(&self, address: TileAddress) -> (r: bool)
        requires
            self.wf(),
        ensures
            r == self@.contains_key(address),
    {
        self.find(address).is_some()
    }

    /// Puts `tile` at `address`, replacing what was there, or clears the
    /// address for `None`. The address is recorded as changed.
    pub fn set(&mut self, address: TileAddress, tile: Option<TileType>)
        requires
            old(self).wf(),
        ensures
            final(self).wf(),
            final(self)@ == set_spec(old(self)@, address, tile),
            final(self).changes() == old(self).changes().push(address),
            final(self).origin() == old(self).origin(),
    {
        let ghost s0 = self.entries@;
        let found = self.find(address);
        match (found, tile) {
            (Some(i), Some(t)) => {
                self.entries.set(i, TileEntry { address, tile: t });
                let ghost s1 = self.entries@;
                assert forall|a: TileAddress| #[trigger]
                    holds_address(s1, a) == (holds_address(s0, a) || a == address) by {
                    if holds_address(s0, a) {
                        let j = choose|j: int| 0 <= j < s0.len() && (#[trigger] s0[j]).address == a;
                        assert(s1[j].address == a);
                    }
                    if holds_address(s1, a) {
                        let j = choose|j: int| 0 <= j < s1.len() && (#[trigger] s1[j]).address == a;
                        assert(s0[j].address == a);
                    }
                }
                assert forall|a: TileAddress| #[trigger]
                    holds_address(s1, a) && a != address implies entry_tile(s1, a) == entry_tile(
                    s0,
                    a,
                ) by {
                    let j = choose|j: int| 0 <= j < s1.len() && (#[trigger] s1[j]).address == a;
                    lemma_entry_at(s1, j);
                    lemma_entry_at(s0, j);
                }
                proof {
                    lemma_entry_at(s1, i as int);
                }
                assert(self@ =~= set_spec(entries_map(s0), address, tile));
            },
            (Some(i), None) => {
                self.entries.remove(i);
                let ghost s1 = self.entries@;
                assert(s1 == s0.remove(i as int));
                assert forall|a: TileAddress| #[trigger]
                    holds_address(s1, a) == (holds_address(s0, a) && a != address) by {
                    if holds_address(s0, a) && a != address {
                        let j = choose|j: int| 0 <= j < s0.len() && (#[trigger] s0[j]).address == a;
                        if j < i {
                            assert(s1[j].address == a);
                        } else {
                            assert(s1[j - 1].address == a);
                        }
                    }
                    if holds_address(s1, a) {
                        let j = choose|j: int| 0 <= j < s1.len() && (#[trigger] s1[j]).address == a;
                        if j < i {
                            assert(s0[j].address == a);
                        } else {
                            assert(s0[j + 1].address == a);
                        }
                    }
                }
                assert forall|a: TileAddress| #[trigger]
                    holds_address(s1, a) implies entry_tile(s1, a) == entry_tile(s0, a) by {
                    let j = choose|j: int| 0 <= j < s1.len() && (#[trigger] s1[j]).address == a;
                    lemma_entry_at(s1, j);
                    if j < i {
                        lemma_entry_at(s0, j);
                    } else {
                        lemma_entry_at(s0, j + 1);
                    }
                }
                assert(self@ =~= set_spec(entries_map(s0), address, tile));
            },
            (None, Some(t)) => {
                self.entries.push(TileEntry { address, tile: t });
                let ghost s1 = self.entries@;
                assert forall|a: TileAddress| #[trigger]
                    holds_address(s1, a) == (holds_address(s0, a) || a == address) by {
                    if holds_address(s0, a) {
                        let j = choose|j: int| 0 <= j < s0.len() && (#[trigger] s0[j]).address == a;
                        assert(s1[j].address == a);
                    }
                    if holds_address(s1, a) && a != address {
                        let j = choose|j: int| 0 <= j < s1.len() && (#[trigger] s1[j]).address == a;
                        assert(s0[j].address == a);
                    }
                    if a == address {
                        assert(s1[s0.len() as int].address == a);
                    }
                }
                assert forall|a: TileAddress| #[trigger]
                    holds_address(s1, a) && a != address implies entry_tile(s1, a) == entry_tile(
                    s0,
                    a,
                ) by {
                    let j = choose|j: int| 0 <= j < s1.len() && (#[trigger] s1[j]).address == a;
                    lemma_entry_at(s1, j);
                    lemma_entry_at(s0, j);
                }
                proof {
                    lemma_entry_at(s1, s0.len() as int);
                }
                assert(self@ =~= set_spec(entries_map(s0), address, tile));
            },
            (None, None) => {
                assert(self@ =~= set_spec(entries_map(s0), address, tile));
            },
        }
        self.changed.push(address);
    }

    /// The world position of the centre of a cell of this surface.
    pub fn grid_to_translation(&self, position: (i32, i32)) -> (r: WorldPos)
        requires
            offset_ok(self.origin()),
        ensures
            r.x == center_of(position.0 as int, self.origin().x as int),
            r.y == center_of(position.1 as int, self.origin().y as int),
    {
        grid_to_world(self.offset, position)
    }

    /// The cell of this surface that holds a world position; `None` where it
    /// lies beyond the range of `i32`.
    pub fn translation_to_grid(&self, translation: WorldPos) -> (r: Option<(i32, i32)>)
        ensures
            match r {
                Some(c) => c.0 == cell_of(translation.x as int, self.origin().x as int) && c.1
                    == cell_of(translation.y as int, self.origin().y as int),
                None => !(i32::MIN <= cell_of(translation.x as int, self.origin().x as int)
                    <= i32::MAX) || !(i32::MIN <= cell_of(translation.y as int, self.origin().y as int)
                    <= i32::MAX),
            },
    {
        world_to_grid(self.offset, translation)
    }

    /// Hands out the addresses changed since the last call, oldest first.
    pub fn take_changes(&mut self) -> (r: Vec<TileAddress>)
        ensures
            r@ == old(self).changes(),
            final(self).changes() == Seq::<TileAddress>::empty(),
            final(self)@ == old(self)@,
            final(self).wf() == old(self).wf(),
            final(self).origin() == old(self).origin(),
    {
        let mut r = Vec::new();
        std::mem::swap(&mut r, &mut self.changed);
        r
    }
}

/// Setting an address twice to the same tile leaves what one setting leaves,
/// and clearing an address after any setting leaves it empty.
pub proof fn lemma_set_idempotent(
    m: Map<TileAddress, TileType>,
    address: TileAddress,
    tile: Option<TileType>,
)
    ensures
        set_spec(set_spec(m, address, tile), address, tile) == set_spec(m, address, tile),
        !set_spec(set_spec(m, address, tile), address, None).contains_key(address),
        set_spec(set_spec(m, address, tile), address, None) == m.remove(address),
{
    assert(set_spec(set_spec(m, address, tile), address, tile) =~= set_spec(m, address, tile));
    assert(set_spec(set_spec(m, address, tile), address, None) =~= m.remove(address));
}

} // verus!
