use vstd::prelude::*;

use crate::level::Level;
use crate::palette::Palette;
use crate::tile::Tile;
use crate::vec2::UVec2;

verus! {

/// The glyph drawn on the focus cell.
pub const PLAYER_GLYPH: char = '@';

/// The foreground colour of the focus glyph.
pub const PLAYER_FORE: u8 = 15;

/// The blank tile drawn outside the level: a passable space in colour 0 on 0.
pub open spec fn void_tile() -> Tile {
    Tile { glyph: ' ', fore: 0, back: 0, passable: true }
}

/// The focus marker drawn over a tile whose background is `back`.
pub open spec fn marker_tile(back: u8) -> Tile {
    Tile { glyph: PLAYER_GLYPH, fore: PLAYER_FORE, back, passable: true }
}

/// The window of level cells a display shows: from `start` (included) to
/// `end` (excluded), in level coordinates, which may be negative.
#[derive(Clone, Copy, Debug, PartialEq, Eq, Structural)]
pub struct Window {
    pub start_x: i32,
    pub start_y: i32,
    pub end_x: i32,
    pub end_y: i32,
}

/// The level cell shown at display row `di`, column `dj`: `focus - size / 2`
/// (halves rounded down) plus `(dj, di)`, as (row, column).
pub open spec fn level_cell(focus: UVec2, size: UVec2, di: int, dj: int) -> (int, int) {
    (focus.y - size.y / 2 + di, focus.x - size.x / 2 + dj)
}

/// What the display shows at row `di`, column `dj`: the blank tile outside
/// the level; the focus marker over the tile's background on the focus
/// cell; the palette's tile for the cell elsewhere.
pub open spec fn projected(
    level: Level,
    palette: Seq<(Seq<char>, Tile)>,
    focus: UVec2,
    size: UVec2,
    di: int,
    dj: int,
) -> Tile {
    let (li, lj) = level_cell(focus, size, di, dj);
    if li < 0 || lj < 0 || li >= level.size.y || lj >= level.size.x {
        void_tile()
    } else {
        let t = palette[level.grid()[li][lj] as int].1;
        if li == focus.y && lj == focus.x {
            marker_tile(t.back)
        } else {
            t
        }
    }
}

/// Every cell of the level holds an index into the palette.
pub open spec fn indices_valid(level: Level, palette: Seq<(Seq<char>, Tile)>) -> bool {
    forall|r: int, c: int|
        0 <= r < level.grid().len() && 0 <= c < level.grid()[r].len() ==> (#[trigger] level.grid()[r][c])
            < palette.len()
}

/// The window shown by a display of `size` centred on `focus`: it starts
/// `size / 2` (rounded down) before the focus and spans `size`.
pub fn window(focus: UVec2, size: UVec2) -> (r: Window)
    ensures
        r.start_x == focus.x - size.x / 2,
        r.start_y == focus.y - size.y / 2,
        r.end_x == r.start_x + size.x,
        r.end_y == r.start_y + size.y,
{
    let start_x = focus.x as i32 - (size.x / 2) as i32;
    let start_y = focus.y as i32 - (size.y / 2) as i32;
    Window { start_x, start_y, end_x: start_x + size.x as i32, end_y: start_y + size.y as i32 }
}

/// The visible buffer: `size.y` rows of `size.x` resolved tiles.
pub struct Display {
    pub size: UVec2,
    pub data: Vec<Vec<Tile>>,
}

impl Display {
    pub open spec fn cells(self) -> Seq<Seq<Tile>> {
        self.data@.map_values(|row: Vec<Tile>| row@)
    }

    /// The buffer has exactly `size.y` rows of `size.x` tiles.
    pub open spec fn wf(self) -> bool {
        &&& self.data@.len() == self.size.y
        &&& forall|r: int| 0 <= r < self.data@.len() ==> (#[trigger] self.data@[r])@.len() == self.size.x
    }

    /// A display of the given size filled with the blank tile.
    pub fn new(size: UVec2) -> (r: Self)
        ensures
            r.wf(),
            r.size == size,
            forall|i: int, j: int| 0 <= i < size.y && 0 <= j < size.x ==> r.cells()[i][j] == void_tile(),
    {
        let mut data: Vec<Vec<Tile>> = Vec::new();
        let mut i: u16 = 0;
        while i < size.y
            invariant
                i <= size.y,
                data@.len() == i,
                forall|r: int| 0 <= r < i ==> (#[trigger] data@[r])@.len() == size.x,
                forall|r: int, c: int| 0 <= r < i && 0 <= c < size.x ==> data@[r]@[c] == void_tile(),
            decreases size.y - i,
        {
            let mut row: Vec<Tile> = Vec::new();
            let mut j: u16 = 0;
            while j < size.x
                invariant
                    j <= size.x,
                    row@.len() == j,
                    forall|c: int| 0 <= c < j ==> row@[c] == void_tile(),
                decreases size.x - j,
            {
                row.push(Tile::new(' ', 0, 0, true));
                j = j + 1;
            }
            data.push(row);
            i = i + 1;
        }
        Display { size, data }
    }

    /// Redraws the whole buffer from the level: each cell shows the level
    /// cell at the same offset from the window's start, blank outside the
    /// level, with the focus marker on the focus cell.
    pub fn project(&mut self, level: &Level, palette: &Palette, focus: UVec2)
        requires
            old(self).wf(),
            level.wf(),
            indices_valid(*level, palette.entries()),
        ensures
            final(self).wf(),
            final(self).size == old(self).size,
            forall|di: int, dj: int|
                0 <= di < old(self).size.y && 0 <= dj < old(self).size.x ==> #[trigger] final(self).cells()[di][dj]
                    == projected(*level, palette.entries(), focus, old(self).size, di, dj),
    {
        let win = window(focus, self.size);
        let ghost size = self.size;
        let mut di: usize = 0;
        while di < self.size.y as usize
            invariant
                self.wf(),
                self.size == size,
                size == old(self).size,
                level.wf(),
                indices_valid(*level, palette.entries()),
                win.start_x == focus.x - size.x / 2,
                win.start_y == focus.y - size.y / 2,
                di <= size.y,
                forall|i: int, j: int|
                    0 <= i < di && 0 <= j < size.x ==> #[trigger] self.cells()[i][j] == projected(
                        *level,
                        palette.entries(),
                        focus,
                        size,
                        i,
                        j,
                    ),
            decreases size.y - di,
        {
            let mut dj: usize = 0;
            while dj < self.size.x as usize
                invariant
                    self.wf(),
                    self.size == size,
                    level.wf(),
                    indices_valid(*level, palette.entries()),
                    win.start_x == focus.x - size.x / 2,
                    win.start_y == focus.y - size.y / 2,
                    di < size.y,
                    dj <= size.x,
                    forall|i: int, j: int|
                        0 <= i < di && 0 <= j < size.x ==> #[trigger] self.cells()[i][j] == projected(
                            *level,
                            palette.entries(),
                            focus,
                            size,
                            i,
                            j,
                        ),
                    forall|j: int|
                        0 <= j < dj ==> #[trigger] self.cells()[di as int][j] == projected(
                            *level,
                            palette.entries(),
                            focus,
                            size,
                            di as int,
                            j,
                        ),
                decreases size.x - dj,
            {
                let li: i32 = win.start_y + di as i32;
                let lj: i32 = win.start_x + dj as i32;
                let t = if li < 0 || lj < 0 || li >= level.size.y as i32 || lj >= level.size.x as i32 {
                    Tile::new(' ', 0, 0, true)
                } else {
                    let index = level.data[li as usize][lj as usize];
                    let under = match palette.tile(index) {
                        Some(t) => t,
                        None => Tile::new(' ', 0, 0, true),
                    };
                    if li == focus.y as i32 && lj == focus.x as i32 {
                        Tile::new(PLAYER_GLYPH, PLAYER_FORE, under.back, true)
                    } else {
                        under
                    }
                };
                assert(t == projected(*level, palette.entries(), focus, size, di as int, dj as int));
                let ghost prev = self.cells();
                self.data[di][dj] = t;
                proof {
                    assert(self.cells() =~= prev.update(di as int, prev[di as int].update(dj as int, t)));
                }
                dj = dj + 1;
            }
            di = di + 1;
        }
    }
}

} // verus!
