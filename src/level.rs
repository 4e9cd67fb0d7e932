use vstd::prelude::*;

use vstd::arithmetic::power2::{lemma_pow2_strictly_increases, lemma2_to64, pow2};
use vstd::bits::lemma_u16_shl_is_mul;

use crate::error::LevelError;
use crate::flatten::{flat, iter};
use crate::flatten::child_pos;
use crate::generator::{generated, leaves_bounded, lemma_generated_bounds, quadtree_gen, MAX_DEPTH};
use crate::position::{decode_position, decode_x, decode_y};
use crate::quadtree::Quadtree;
use crate::vec2::UVec2;

verus! {

/// The level: a grid of `size.y` rows of `size.x` tile-palette indices.
pub struct Level {
    pub size: UVec2,
    pub data: Vec<Vec<usize>>,
}

/// Whether cell `(r, c)` lies on the outline of the rectangle from `(x, y)`
/// to `(x + w, y + h)`, both corners included.
pub open spec fn on_outline(r: int, c: int, x: int, y: int, w: int, h: int) -> bool {
    ||| (r == y || r == y + h) && x <= c <= x + w
    ||| (c == x || c == x + w) && y <= r <= y + h
}

/// `g` with the outline of the rectangle from `(x, y)` to `(x + w, y + h)`
/// set to `tile`.
pub open spec fn outline(g: Seq<Seq<usize>>, x: int, y: int, w: int, h: int, tile: usize) -> Seq<
    Seq<usize>,
> {
    Seq::new(
        g.len(),
        |r: int| Seq::new(g[r].len(), |c: int| if on_outline(r, c, x, y, w, h) { tile } else { g[r][c] }),
    )
}

impl Level {
    /// The rows and columns of the grid as sequences.
    pub open spec fn grid(self) -> Seq<Seq<usize>> {
        self.data@.map_values(|row: Vec<usize>| row@)
    }

    /// The grid has exactly `size.y` rows of `size.x` cells.
    pub open spec fn wf(self) -> bool {
        &&& self.data@.len() == self.size.y
        &&& forall|r: int| 0 <= r < self.data@.len() ==> (#[trigger] self.data@[r])@.len() == self.size.x
    }

    /// A level of the given size filled with tile index 0.
    pub fn new(size: UVec2) -> (r: Self)
        ensures
            r.wf(),
            r.size == size,
            forall|i: int, j: int| 0 <= i < size.y && 0 <= j < size.x ==> r.grid()[i][j] == 0,
    {
        let mut data: Vec<Vec<usize>> = Vec::new();
        let mut i: u16 = 0;
        while i < size.y
            invariant
                i <= size.y,
                data@.len() == i,
                forall|r: int| 0 <= r < i ==> (#[trigger] data@[r])@.len() == size.x,
                forall|r: int, c: int| 0 <= r < i && 0 <= c < size.x ==> data@[r]@[c] == 0,
            decreases size.y - i,
        {
            let mut row: Vec<usize> = Vec::new();
            let mut j: u16 = 0;
            while j < size.x
                invariant
                    j <= size.x,
                    row@.len() == j,
                    forall|c: int| 0 <= c < j ==> row@[c] == 0,
                decreases size.x - j,
            {
                row.push(0);
                j = j + 1;
            }
            data.push(row);
            i = i + 1;
        }
        Level { size, data }
    }

    pub(crate) fn set_cell(&mut self, r: usize, c: usize, tile: usize)
        requires
            old(self).wf(),
            r < old(self).size.y,
            c < old(self).size.x,
        ensures
            final(self).wf(),
            final(self).size == old(self).size,
            final(self).grid() == old(self).grid().update(r as int, old(self).grid()[r as int].update(c as int, tile)),
    {
        self.data[r][c] = tile;
        proof {
            assert(self.grid() =~= old(self).grid().update(r as int, old(self).grid()[r as int].update(c as int, tile)));
        }
    }
    /// Stamps the hollow outline of the rectangle from `pos` to `pos + size`
    /// (both corners included) into the grid with `tile`; cells inside and
    /// outside the outline keep their values. A rectangle reaching past the
    /// grid is refused with the far corner as the offending coordinate, and
    /// the grid is left as it was.
    pub fn make_room(&mut self, pos: UVec2, size: UVec2, tile: usize) -> (r: Result<(), LevelError>)
        requires
            old(self).wf(),
        ensures
            final(self).wf(),
            final(self).size == old(self).size,
            r is Ok <==> (pos.x + size.x < old(self).size.x && pos.y + size.y < old(self).size.y),
            r is Err ==> r == Err::<(), LevelError>(
                LevelError::GridBounds { x: (pos.x + size.x) as u32, y: (pos.y + size.y) as u32 },
            ) && final(self).grid() == old(self).grid(),
            r is Ok ==> final(self).grid() == outline(
                old(self).grid(),
                pos.x as int,
                pos.y as int,
                size.x as int,
                size.y as int,
                tile,
            ),
    {
        let far_x: u32 = pos.x as u32 + size.x as u32;
        let far_y: u32 = pos.y as u32 + size.y as u32;
        if far_x >= self.size.x as u32 || far_y >= self.size.y as u32 {
            return Err(LevelError::GridBounds { x: far_x, y: far_y });
        }
        let (size_x, size_y) = (size.x as usize, size.y as usize);
        let (pos_x, pos_y) = (pos.x as usize, pos.y as usize);
        let ghost g0 = self.grid();
        let ghost (x, y, w, h) = (pos_x as int, pos_y as int, size_x as int, size_y as int);
        let mut col: usize = 0;
        while col <= size_x
            invariant
                self.wf(),
                self.size == old(self).size,
                g0 == old(self).grid(),
                x == pos_x && y == pos_y && w == size_x && h == size_y,
                pos_x + size_x < self.size.x,
                pos_y + size_y < self.size.y,
                col <= size_x + 1,
                self.grid().len() == g0.len(),
                forall|i: int| 0 <= i < g0.len() ==> (#[trigger] self.grid()[i]).len() == g0[i].len(),
                forall|i: int, j: int|
                    0 <= i < g0.len() && 0 <= j < g0[i].len() ==> #[trigger] self.grid()[i][j] == if (i == y
                        || i == y + h) && x <= j < x + col {
                        tile
                    } else {
                        g0[i][j]
                    },
            decreases size_x + 1 - col,
        {
            self.set_cell(pos_y, pos_x + col, tile);
            self.set_cell(pos_y + size_y, pos_x + col, tile);
            col = col + 1;
        }
        let mut row: usize = 0;
        while row <= size_y
            invariant
                self.wf(),
                self.size == old(self).size,
                g0 == old(self).grid(),
                x == pos_x && y == pos_y && w == size_x && h == size_y,
                pos_x + size_x < self.size.x,
                pos_y + size_y < self.size.y,
                row <= size_y + 1,
                self.grid().len() == g0.len(),
                forall|i: int| 0 <= i < g0.len() ==> (#[trigger] self.grid()[i]).len() == g0[i].len(),
                forall|i: int, j: int|
                    0 <= i < g0.len() && 0 <= j < g0[i].len() ==> #[trigger] self.grid()[i][j] == if ((i == y
                        || i == y + h) && x <= j <= x + w) || ((j == x || j == x + w) && y <= i < y + row) {
                        tile
                    } else {
                        g0[i][j]
                    },
            decreases size_y + 1 - row,
        {
            self.set_cell(pos_y + row, pos_x, tile);
            self.set_cell(pos_y + row, pos_x + size_x, tile);
            row = row + 1;
        }
        proof {
            let o = outline(g0, x, y, w, h, tile);
            assert forall|i: int| 0 <= i < g0.len() implies #[trigger] self.grid()[i] =~= o[i] by {
                assert forall|j: int| 0 <= j < g0[i].len() implies #[trigger] self.grid()[i][j] == o[i][j] by {}
            }
            assert(self.grid() =~= o);
        }
        Ok(())
    }
}

/// Side of a macro-cell; the second macro-cell starts this far right of the first.
pub const MACRO_CELL: u16 = 64;

/// The largest room-size class whose side, `2 << class`, fits in a `u16`.
pub const MAX_ROOM_CLASS: u16 = 14;

/// A room's footprint: its outline runs from `position` to
/// `position + size`, both corners included.
#[derive(Clone, Copy, Debug, PartialEq, Eq, Structural)]
pub struct Room {
    pub position: UVec2,
    pub size: UVec2,
}

/// Side length of a room of size class `class`: `2 << class`.
pub open spec fn room_side(class: u16) -> int {
    2 * pow2(class as nat) as int
}

/// The room of the flattened leaf `e` (path, size class) in the macro-cell
/// whose left edge is at `origin_x`.
pub open spec fn room_of(e: (u32, u16), origin_x: u16) -> Room {
    Room {
        position: UVec2 { x: (origin_x + decode_x(e.0)) as u16, y: decode_y(e.0) as u16 },
        size: UVec2 { x: room_side(e.1) as u16, y: room_side(e.1) as u16 },
    }
}

/// The rooms of the leaves of `t`, in flattening order, for the macro-cell
/// at `origin_x`.
pub open spec fn rooms_spec(t: Quadtree<u16>, origin_x: u16) -> Seq<Room> {
    flat(t, 0, 0).map_values(|e: (u32, u16)| room_of(e, origin_x))
}

/// Every leaf of `t` holds a size class whose side fits in a `u16`.
pub open spec fn classes_fit(t: Quadtree<u16>) -> bool {
    forall|k: int| 0 <= k < flat(t, 0, 0).len() ==> (#[trigger] flat(t, 0, 0)[k]).1 <= MAX_ROOM_CLASS
}

/// Whether the outline of `room` lies inside a grid of the given size.
pub open spec fn fits(room: Room, size: UVec2) -> bool {
    room.position.x + room.size.x < size.x && room.position.y + room.size.y < size.y
}

/// The error for a room that reaches past the grid: its far corner.
pub open spec fn bounds_error(room: Room) -> LevelError {
    LevelError::GridBounds {
        x: (room.position.x + room.size.x) as u32,
        y: (room.position.y + room.size.y) as u32,
    }
}

/// `g` with the outlines of `rooms` stamped in order.
pub open spec fn carve_all(g: Seq<Seq<usize>>, rooms: Seq<Room>, tile: usize) -> Seq<Seq<usize>>
    decreases rooms.len(),
{
    if rooms.len() == 0 {
        g
    } else {
        let room = rooms.last();
        outline(
            carve_all(g, rooms.drop_last(), tile),
            room.position.x as int,
            room.position.y as int,
            room.size.x as int,
            room.size.y as int,
            tile,
        )
    }
}

/// The outcome of carving `rooms` into `old`: all of them when every room
/// fits, else the first room that does not is reported and nothing changes.
pub open spec fn carve_outcome(
    old: Level,
    new: Level,
    rooms: Seq<Room>,
    tile: usize,
    r: Result<(), LevelError>,
) -> bool {
    &&& new.wf()
    &&& new.size == old.size
    &&& (r is Ok <==> forall|k: int| 0 <= k < rooms.len() ==> fits(#[trigger] rooms[k], old.size))
    &&& r is Ok ==> new.grid() == carve_all(old.grid(), rooms, tile)
    &&& r is Err ==> {
        &&& new.grid() == old.grid()
        &&& exists|k: int|
            #![trigger rooms[k]]
            0 <= k < rooms.len() && !fits(rooms[k], old.size) && (forall|j: int|
                0 <= j < k ==> fits(#[trigger] rooms[j], old.size)) && r == Err::<(), LevelError>(
                bounds_error(rooms[k]),
            )
    }
}

proof fn lemma_flat_payloads_bounded(t: Quadtree<u16>, pos: u32, depth: nat, d: nat, m: nat)
    requires
        leaves_bounded(t, d, m),
    ensures
        forall|k: int| 0 <= k < flat(t, pos, depth).len() ==> (#[trigger] flat(t, pos, depth)[k]).1 <= m,
    decreases t,
{
    match t {
        Quadtree::Leaf(_) => {},
        Quadtree::Stem(c) => {
            let dd = (d - 1) as nat;
            lemma_flat_payloads_bounded(c.0, child_pos(pos, 0, depth), depth + 1, dd, m);
            lemma_flat_payloads_bounded(c.1, child_pos(pos, 1, depth), depth + 1, dd, m);
            lemma_flat_payloads_bounded(c.2, child_pos(pos, 2, depth), depth + 1, dd, m);
            lemma_flat_payloads_bounded(c.3, child_pos(pos, 3, depth), depth + 1, dd, m);
            let a = flat(c.0, child_pos(pos, 0, depth), depth + 1);
            let b = flat(c.1, child_pos(pos, 1, depth), depth + 1);
            let e = flat(c.2, child_pos(pos, 2, depth), depth + 1);
            let g = flat(c.3, child_pos(pos, 3, depth), depth + 1);
            let f = flat(t, pos, depth);
            assert forall|k: int| 0 <= k < f.len() implies (#[trigger] f[k]).1 <= m by {
                if k < a.len() {
                    assert(f[k] == a[k]);
                } else if k < a.len() + b.len() {
                    assert(f[k] == b[k - a.len()]);
                } else if k < a.len() + b.len() + e.len() {
                    assert(f[k] == e[k - a.len() - b.len()]);
                } else {
                    assert(f[k] == g[k - a.len() - b.len() - e.len()]);
                }
            }
        },
    }
}

proof fn lemma_generated_classes_fit(t: Quadtree<u16>)
    requires
        generated(t, MAX_DEPTH as nat),
    ensures
        classes_fit(t),
{
    lemma_generated_bounds(t, 5);
    lemma_flat_payloads_bounded(t, 0, 0, 5, 4);
}

/// The side of a room of size class `class`.
fn side_of(class: u16) -> (r: u16)
    requires
        class <= MAX_ROOM_CLASS,
    ensures
        r == room_side(class),
{
    proof {
        lemma2_to64();
        if class < 14 {
            lemma_pow2_strictly_increases(class as nat, 14);
        }
        lemma_u16_shl_is_mul(2, class);
    }
    2u16 << class
}

/// The rooms of the leaves of `tree`, in flattening order, for the
/// macro-cell whose left edge is at `origin_x`: each room's corner is its
/// decoded path shifted by `origin_x`, and its side `2 << class`. A size
/// class above 14 is refused.
pub fn rooms_of(tree: &Quadtree<u16>, origin_x: u16) -> (r: Result<Vec<Room>, LevelError>)
    requires
        tree.height() <= 16,
        origin_x <= u16::MAX - 63,
    ensures
        r is Ok <==> classes_fit(*tree),
        r is Err ==> r == Err::<Vec<Room>, LevelError>(LevelError::Configuration),
        r matches Ok(v) ==> v@ == rooms_spec(*tree, origin_x),
{
    let entries = iter(tree, 0, 0);
    let ghost f = flat(*tree, 0, 0);
    let mut rooms: Vec<Room> = Vec::new();
    let mut k: usize = 0;
    while k < entries.len()
        invariant
            f == flat(*tree, 0, 0),
            entries@.len() == f.len(),
            forall|i: int| 0 <= i < entries@.len() ==> #[trigger] entries@[i].entry() == f[i],
            origin_x <= u16::MAX - 63,
            k <= entries@.len(),
            rooms@.len() == k,
            forall|i: int| 0 <= i < k ==> f[i].1 <= MAX_ROOM_CLASS,
            forall|i: int| 0 <= i < k ==> #[trigger] rooms@[i] == room_of(f[i], origin_x),
        decreases entries@.len() - k,
    {
        let class: u16 = *entries[k].data();
        if class > MAX_ROOM_CLASS {
            proof {
                assert(entries@[k as int].entry() == f[k as int]);
                assert(flat(*tree, 0, 0)[k as int].1 > MAX_ROOM_CLASS);
            }
            return Err(LevelError::Configuration);
        }
        let offset = decode_position(entries[k].position());
        let side = side_of(class);
        rooms.push(
            Room {
                position: UVec2 { x: origin_x + offset.x, y: offset.y },
                size: UVec2 { x: side, y: side },
            },
        );
        proof {
            assert(entries@[k as int].entry() == f[k as int]);
        }
        k = k + 1;
    }
    proof {
        assert(rooms@ =~= rooms_spec(*tree, origin_x));
    }
    Ok(rooms)
}

impl Level {
    /// Carves the outlines of `rooms` with `tile`, in order. Every room is
    /// checked first: if one reaches past the grid, the first such room is
    /// reported by its far corner and nothing is carved.
    pub fn carve_rooms(&mut self, rooms: &Vec<Room>, tile: usize) -> (r: Result<(), LevelError>)
        requires
            old(self).wf(),
        ensures
            carve_outcome(*old(self), *final(self), rooms@, tile, r),
    {
        let mut k: usize = 0;
        while k < rooms.len()
            invariant
                self.wf(),
                *self == *old(self),
                k <= rooms@.len(),
                forall|j: int| 0 <= j < k ==> fits(#[trigger] rooms@[j], self.size),
            decreases rooms@.len() - k,
        {
            let room = rooms[k];
            if room.position.x as u32 + room.size.x as u32 >= self.size.x as u32 || room.position.y as u32
                + room.size.y as u32 >= self.size.y as u32 {
                proof {
                    assert(!fits(rooms@[k as int], self.size));
                }
                return Err(
                    LevelError::GridBounds {
                        x: room.position.x as u32 + room.size.x as u32,
                        y: room.position.y as u32 + room.size.y as u32,
                    },
                );
            }
            k = k + 1;
        }
        let ghost g0 = self.grid();
        let mut k: usize = 0;
        while k < rooms.len()
            invariant
                self.wf(),
                self.size == old(self).size,
                g0 == old(self).grid(),
                k <= rooms@.len(),
                forall|j: int| 0 <= j < rooms@.len() ==> fits(#[trigger] rooms@[j], self.size),
                self.grid() == carve_all(g0, rooms@.subrange(0, k as int), tile),
            decreases rooms@.len() - k,
        {
            let room = rooms[k];
            assert(fits(rooms@[k as int], self.size));
            let _ = self.make_room(room.position, room.size, tile);
            proof {
                let done = rooms@.subrange(0, k + 1);
                assert(done.drop_last() =~= rooms@.subrange(0, k as int));
                assert(done.last() == room);
            }
            k = k + 1;
        }
        proof {
            assert(rooms@.subrange(0, rooms@.len() as int) =~= rooms@);
        }
        Ok(())
    }

    /// Carves the rooms of two quadtrees tiled side by side: `first` in the
    /// macro-cell at x = 0 and `second` in the one at x = 64. A size class
    /// above 14 in either tree is a configuration error; otherwise all rooms
    /// are carved as `carve_rooms` does.
    pub fn carve_trees(&mut self, first: &Quadtree<u16>, second: &Quadtree<u16>, tile: usize) -> (r:
        Result<(), LevelError>)
        requires
            old(self).wf(),
            first.height() <= 16,
            second.height() <= 16,
        ensures
            !(classes_fit(*first) && classes_fit(*second)) ==> r == Err::<(), LevelError>(
                LevelError::Configuration,
            ) && *final(self) == *old(self),
            classes_fit(*first) && classes_fit(*second) ==> carve_outcome(
                *old(self),
                *final(self),
                rooms_spec(*first, 0) + rooms_spec(*second, MACRO_CELL),
                tile,
                r,
            ),
    {
        let mut rooms = match rooms_of(first, 0) {
            Ok(v) => v,
            Err(e) => {
                return Err(e);
            },
        };
        let mut more = match rooms_of(second, MACRO_CELL) {
            Ok(v) => v,
            Err(e) => {
                return Err(e);
            },
        };
        rooms.append(&mut more);
        self.carve_rooms(&rooms, tile)
    }

    /// Generates a dungeon: two quadtrees of depth 5, their rooms carved
    /// with `tile` into two 64-wide macro-cells side by side. The outcome is
    /// that of `carve_trees` on some pair of generated trees.
    pub fn generate(&mut self, tile: usize) -> (r: Result<(), LevelError>)
        requires
            old(self).wf(),
        ensures
            exists|first: Quadtree<u16>, second: Quadtree<u16>|
                generated(first, MAX_DEPTH as nat) && generated(second, MAX_DEPTH as nat) && classes_fit(
                    first,
                ) && classes_fit(second) && carve_outcome(
                    *old(self),
                    *final(self),
                    rooms_spec(first, 0) + rooms_spec(second, MACRO_CELL),
                    tile,
                    r,
                ),
    {
        let mut first = Quadtree::new(0u16);
        let mut second = Quadtree::new(0u16);
        let _ = quadtree_gen(&mut first, MAX_DEPTH);
        let _ = quadtree_gen(&mut second, MAX_DEPTH);
        proof {
            lemma_generated_bounds(first, 5);
            lemma_generated_bounds(second, 5);
            lemma_generated_classes_fit(first);
            lemma_generated_classes_fit(second);
        }
        self.carve_trees(&first, &second, tile)
    }
}

} // verus!
