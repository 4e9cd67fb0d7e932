use vstd::prelude::*;

use crate::error::LevelError;
use crate::level::Level;
use crate::palette::{names_unique, position_of, Palette};
use crate::tile::Tile;
use crate::vec2::UVec2;

verus! {

/// A room exported from a level region: its size class, the palette names
/// of the tiles it uses, and its grid of indices into that name list.
pub struct RoomTile {
    pub size: u8,
    pub tiles: Vec<String>,
    pub data: Vec<Vec<usize>>,
}

/// `floor(log2(n))`, with 0 for `n <= 1`.
pub open spec fn log2_floor(n: nat) -> nat
    decreases n,
{
    if n <= 1 {
        0
    } else {
        1 + log2_floor(n / 2)
    }
}

/// The size class of a region `2^n + 1` tiles wide: `floor(log2(width - 1))`,
/// 0 for a width of at most 2.
pub open spec fn room_class(size: UVec2) -> nat {
    if size.x <= 1 {
        0
    } else {
        log2_floor((size.x - 1) as nat)
    }
}

/// The side of the region a room of class `n` fills: `(2 << n) + 1`.
pub open spec fn class_extent(n: u8) -> int {
    2 * vstd::arithmetic::power2::pow2(n as nat) as int + 1
}

/// Strictly increasing.
pub open spec fn sorted_distinct(s: Seq<usize>) -> bool {
    forall|i: int, j: int| 0 <= i < j < s.len() ==> s[i] < s[j]
}

/// `v` occurs in the grid.
pub open spec fn in_grid(g: Seq<Seq<usize>>, v: usize) -> bool {
    exists|i: int, j: int| 0 <= i < g.len() && 0 <= j < g[i].len() && #[trigger] g[i][j] == v
}

/// The record `record` is the export of grid `g` against palette `p` with
/// size class `class`: `used`, the distinct indices of `g` in increasing
/// order, gives the record's names (the palette's names at those indices)
/// and, by position, the record's grid entries.
#[verifier::opaque]
pub open spec fn exported_as(
    g: Seq<Seq<usize>>,
    p: Seq<(Seq<char>, Tile)>,
    class: nat,
    used: Seq<usize>,
    record: RoomTile,
) -> bool {
    &&& record.size == class
    &&& sorted_distinct(used)
    &&& forall|v: usize| #[trigger] used.contains(v) <==> in_grid(g, v)
    &&& record.tiles@.len() == used.len()
    &&& forall|k: int| 0 <= k < used.len() ==> used[k] < p.len() && (#[trigger] record.tiles@[k])@ == p[used[k] as int].0
    &&& record.data@.len() == g.len()
    &&& forall|i: int|
        0 <= i < g.len() ==> (#[trigger] record.data@[i])@.len() == g[i].len()
    &&& forall|i: int, j: int|
        0 <= i < g.len() && 0 <= j < g[i].len() ==> {
            &&& (#[trigger] record.data@[i]@[j]) < used.len()
            &&& used[record.data@[i]@[j] as int] == g[i][j]
        }
}

/// The grid a record describes against palette `p`: each entry is the
/// palette index of the name it points at.
pub open spec fn imported(data: Seq<Seq<usize>>, names: Seq<Seq<char>>, p: Seq<(Seq<char>, Tile)>) -> Seq<Seq<usize>> {
    Seq::new(
        data.len(),
        |i: int| Seq::new(data[i].len(), |j: int| position_of(p, names[data[i][j] as int])->Some_0 as usize),
    )
}

proof fn lemma_log2_floor_below(n: nat, b: nat)
    requires
        b >= 1,
        n < vstd::arithmetic::power2::pow2(b),
    ensures
        log2_floor(n) < b,
    decreases n,
{
    if n > 1 {
        vstd::arithmetic::power2::lemma_pow2_unfold(b);
        if b == 1 {
            vstd::arithmetic::power2::lemma2_to64();
        } else {
            lemma_log2_floor_below(n / 2, (b - 1) as nat);
        }
    }
}

/// The size class of a level region: `floor(log2(width - 1))`, 0 for a
/// width of at most 2.
pub fn from_room_size(size: UVec2) -> (r: u8)
    ensures
        r == room_class(size),
{
    if size.x <= 1 {
        return 0;
    }
    proof {
        vstd::arithmetic::power2::lemma2_to64();
        lemma_log2_floor_below((size.x - 1) as nat, 16);
    }
    let mut n: u16 = size.x - 1;
    let mut k: u8 = 0;
    while n > 1
        invariant
            1 <= n,
            k + log2_floor(n as nat) == log2_floor((size.x - 1) as nat),
            log2_floor((size.x - 1) as nat) < 16,
        decreases n,
    {
        n = n / 2;
        k = k + 1;
    }
    k
}

/// The extent of a region of size class `n`: `(2 << n) + 1` on each axis.
pub fn to_room_size(n: u8) -> (r: UVec2)
    requires
        n <= 14,
    ensures
        r.x == class_extent(n),
        r.y == class_extent(n),
{
    proof {
        vstd::arithmetic::power2::lemma2_to64();
        if n < 14 {
            vstd::arithmetic::power2::lemma_pow2_strictly_increases(n as nat, 14);
        }
        vstd::bits::lemma_u16_shl_is_mul(2, n as u16);
    }
    let size: u16 = (2u16 << n as u16) + 1;
    UVec2 { x: size, y: size }
}

/// Adds `v` to a strictly increasing sequence, keeping it so.
fn insert_sorted(used: &mut Vec<usize>, v: usize)
    requires
        sorted_distinct(old(used)@),
    ensures
        sorted_distinct(final(used)@),
        forall|x: usize| #[trigger] final(used)@.contains(x) <==> (old(used)@.contains(x) || x == v),
{
    let mut p: usize = 0;
    while p < used.len() && used[p] < v
        invariant
            p <= used@.len(),
            forall|i: int| 0 <= i < p ==> used@[i] < v,
        decreases used@.len() - p,
    {
        p = p + 1;
    }
    if p < used.len() && used[p] == v {
        return;
    }
    let ghost before = used@;
    used.insert(p, v);
    proof {
        let after = used@;
        assert forall|i: int, j: int| 0 <= i < j < after.len() implies after[i] < after[j] by {
            if j < p {
                assert(after[i] == before[i] && after[j] == before[j]);
            } else if j == p {
                assert(after[i] == before[i]);
            } else if i < p {
                assert(after[i] == before[i] && after[j] == before[j - 1]);
                assert(before[p as int] > v);
            } else if i == p {
                assert(after[j] == before[j - 1]);
                assert(before[p as int] > v);
                if j - 1 > p {
                    assert(before[p as int] < before[j - 1]);
                }
            } else {
                assert(after[i] == before[i - 1] && after[j] == before[j - 1]);
            }
        }
        assert forall|x: usize| #[trigger] after.contains(x) <==> (before.contains(x) || x == v) by {
            if after.contains(x) {
                let i = choose|i: int| 0 <= i < after.len() && after[i] == x;
                if i < p {
                    assert(before[i] == x);
                } else if i > p {
                    assert(before[i - 1] == x);
                }
            }
            if before.contains(x) {
                let i = choose|i: int| 0 <= i < before.len() && before[i] == x;
                if i < p {
                    assert(after[i] == x);
                } else {
                    assert(after[i + 1] == x);
                }
            }
            if x == v {
                assert(after[p as int] == v);
            }
        }
    }
}

/// The distinct tile indices of the grid, in increasing order.
fn used_indices(level: &Level) -> (used: Vec<usize>)
    requires
        level.wf(),
    ensures
        sorted_distinct(used@),
        forall|v: usize| #[trigger] used@.contains(v) <==> in_grid(level.grid(), v),
{
    let ghost g = level.grid();
    let mut used: Vec<usize> = Vec::new();
    let mut i: usize = 0;
    while i < level.data.len()
        invariant
            level.wf(),
            g == level.grid(),
            i <= g.len(),
            sorted_distinct(used@),
            forall|a: int, b: int| 0 <= a < i && 0 <= b < g[a].len() ==> used@.contains(#[trigger] g[a][b]),
            forall|k: int| 0 <= k < used@.len() ==> in_grid(g, #[trigger] used@[k]),
        decreases g.len() - i,
    {
        let mut j: usize = 0;
        while j < level.data[i].len()
            invariant
                level.wf(),
                g == level.grid(),
                i < g.len(),
                j <= g[i as int].len(),
                sorted_distinct(used@),
                forall|a: int, b: int| 0 <= a < i && 0 <= b < g[a].len() ==> used@.contains(#[trigger] g[a][b]),
                forall|b: int| 0 <= b < j ==> used@.contains(#[trigger] g[i as int][b]),
                forall|k: int| 0 <= k < used@.len() ==> in_grid(g, #[trigger] used@[k]),
            decreases g[i as int].len() - j,
        {
            let v = level.data[i][j];
            let ghost before = used@;
            insert_sorted(&mut used, v);
            proof {
                assert(g[i as int][j as int] == v);
                assert forall|k: int| 0 <= k < used@.len() implies in_grid(g, #[trigger] used@[k]) by {
                    let x = used@[k];
                    assert(used@.contains(x));
                    if x != v {
                        assert(before.contains(x));
                        let m = choose|m: int| 0 <= m < before.len() && before[m] == x;
                        assert(in_grid(g, before[m]));
                    }
                }
                assert forall|a: int, b: int| 0 <= a < i && 0 <= b < g[a].len() implies used@.contains(#[trigger] g[a][b]) by {
                    assert(before.contains(g[a][b]));
                }
                assert forall|b: int| 0 <= b < j + 1 implies used@.contains(#[trigger] g[i as int][b]) by {
                    if b < j {
                        assert(before.contains(g[i as int][b]));
                    }
                }
            }
            j = j + 1;
        }
        i = i + 1;
    }
    proof {
        assert forall|v: usize| #[trigger] used@.contains(v) <==> in_grid(g, v) by {
            if in_grid(g, v) {
                let (a, b) = choose|a: int, b: int| 0 <= a < g.len() && 0 <= b < g[a].len() && #[trigger] g[a][b] == v;
                assert(used@.contains(g[a][b]));
            }
            if used@.contains(v) {
                let k = choose|k: int| 0 <= k < used@.len() && used@[k] == v;
                assert(in_grid(g, used@[k]));
            }
        }
    }
    used
}

/// The position of `v` in a strictly increasing sequence that holds it.
fn position_in(used: &Vec<usize>, v: usize) -> (k: usize)
    requires
        used@.contains(v),
    ensures
        k < used@.len(),
        used@[k as int] == v,
{
    let mut k: usize = 0;
    while k < used.len()
        invariant
            used@.contains(v),
            k <= used@.len(),
            forall|i: int| 0 <= i < k ==> used@[i] != v,
        decreases used@.len() - k,
    {
        if used[k] == v {
            return k;
        }
        k = k + 1;
    }
    proof {
        let i = choose|i: int| 0 <= i < used@.len() && used@[i] == v;
        assert(used@[i] != v);
    }
    0
}

/// Exports the whole level as a room record: its size class, the palette
/// names of the tile indices it uses (the distinct indices in increasing
/// order), and the level's grid rewritten as positions in that name list.
/// An index without a palette entry is refused; the smallest such index is
/// reported.
pub fn room_record(level: &Level, palette: &Palette) -> (r: Result<RoomTile, LevelError>)
    requires
        level.wf(),
    ensures
        r is Err <==> exists|v: usize| in_grid(level.grid(), v) && v >= palette.entries().len(),
        r is Err ==> exists|m: usize|
            {
                &&& in_grid(level.grid(), m)
                &&& m >= palette.entries().len()
                &&& forall|v: usize| in_grid(level.grid(), v) && v >= palette.entries().len() ==> m <= v
                &&& r == Err::<RoomTile, LevelError>(LevelError::PaletteIndex { index: m })
            },
        r is Ok ==> exists|used: Seq<usize>|
            exported_as(level.grid(), palette.entries(), room_class(level.size), used, r->Ok_0),
{
    let ghost g = level.grid();
    let ghost p = palette.entries();
    let size = from_room_size(level.size);
    let used = used_indices(level);
    let mut tiles: Vec<String> = Vec::new();
    let mut k: usize = 0;
    while k < used.len()
        invariant
            g == level.grid(),
            p == palette.entries(),
            sorted_distinct(used@),
            forall|v: usize| #[trigger] used@.contains(v) <==> in_grid(g, v),
            k <= used@.len(),
            tiles@.len() == k,
            forall|i: int| 0 <= i < k ==> used@[i] < p.len(),
            forall|i: int| 0 <= i < k ==> (#[trigger] tiles@[i])@ == p[used@[i] as int].0,
        decreases used@.len() - k,
    {
        match palette.name(used[k]) {
            Some(name) => {
                tiles.push(name);
            },
            None => {
                proof {
                    let m = used@[k as int];
                    assert(used@.contains(m));
                    assert forall|v: usize| in_grid(g, v) && v >= p.len() implies m <= v by {
                        assert(used@.contains(v));
                        let i = choose|i: int| 0 <= i < used@.len() && used@[i] == v;
                        if i < k {
                            assert((tiles@[i])@ == p[used@[i] as int].0);
                        }
                    }
                }
                return Err(LevelError::PaletteIndex { index: used[k] });
            },
        }
        k = k + 1;
    }
    let mut data: Vec<Vec<usize>> = Vec::new();
    let mut i: usize = 0;
    while i < level.data.len()
        invariant
            level.wf(),
            g == level.grid(),
            p == palette.entries(),
            sorted_distinct(used@),
            tiles@.len() == used@.len(),
            forall|t: int| 0 <= t < used@.len() ==> used@[t] < p.len() && (#[trigger] tiles@[t])@ == p[used@[t] as int].0,
            forall|v: usize| #[trigger] used@.contains(v) <==> in_grid(g, v),
            i <= g.len(),
            data@.len() == i,
            forall|a: int| 0 <= a < i ==> (#[trigger] data@[a])@.len() == g[a].len(),
            forall|a: int, b: int|
                0 <= a < i && 0 <= b < g[a].len() ==> {
                    &&& (#[trigger] data@[a]@[b]) < used@.len()
                    &&& used@[data@[a]@[b] as int] == g[a][b]
                },
        decreases g.len() - i,
    {
        let mut row: Vec<usize> = Vec::new();
        let mut j: usize = 0;
        while j < level.data[i].len()
            invariant
                level.wf(),
                g == level.grid(),
                forall|v: usize| #[trigger] used@.contains(v) <==> in_grid(g, v),
                i < g.len(),
                j <= g[i as int].len(),
                row@.len() == j,
                forall|b: int| 0 <= b < j ==> (#[trigger] row@[b]) < used@.len() && used@[row@[b] as int] == g[i as int][b],
            decreases g[i as int].len() - j,
        {
            let v = level.data[i][j];
            proof {
                assert(g[i as int][j as int] == v);
                assert(in_grid(g, v));
            }
            let pos = position_in(&used, v);
            row.push(pos);
            j = j + 1;
        }
        data.push(row);
        i = i + 1;
    }
    let record = RoomTile { size, tiles, data };
    proof {
        reveal(exported_as);
        assert(exported_as(g, p, room_class(level.size), used@, record));
        assert forall|v: usize| !(in_grid(g, v) && v >= p.len()) by {
            if in_grid(g, v) {
                assert(used@.contains(v));
                let i = choose|i: int| 0 <= i < used@.len() && used@[i] == v;
                assert((tiles@[i])@ == p[used@[i] as int].0);
            }
        }
    }
    let r: Result<RoomTile, LevelError> = Ok(record);
    assert(exported_as(level.grid(), palette.entries(), room_class(level.size), used@, r->Ok_0));
    r
}

/// The names of a record's tiles.
pub open spec fn names_of(record: RoomTile) -> Seq<Seq<char>> {
    record.tiles@.map_values(|t: String| t@)
}

/// The rows of a record's grid.
pub open spec fn grid_of(record: RoomTile) -> Seq<Seq<usize>> {
    record.data@.map_values(|row: Vec<usize>| row@)
}

/// Every name is in the palette.
pub open spec fn names_resolve(names: Seq<Seq<char>>, p: Seq<(Seq<char>, Tile)>) -> bool {
    forall|k: int| 0 <= k < names.len() ==> (#[trigger] position_of(p, names[k])) is Some
}

/// Every grid entry points into a name list of length `n`.
pub open spec fn locals_valid(data: Seq<Seq<usize>>, n: nat) -> bool {
    forall|i: int, j: int| 0 <= i < data.len() && 0 <= j < data[i].len() ==> #[trigger] data[i][j] < n
}

/// Rebuilds a level grid from a room record: each entry becomes the palette
/// index of the name it points at. The first name (in list order) missing
/// from the palette is reported; failing that, the first entry (row by row)
/// that points past the name list.
pub fn room_grid(record: &RoomTile, palette: &Palette) -> (r: Result<Vec<Vec<usize>>, LevelError>)
    ensures
        r is Ok <==> names_resolve(names_of(*record), palette.entries()) && locals_valid(
            grid_of(*record),
            names_of(*record).len(),
        ),
        !names_resolve(names_of(*record), palette.entries()) ==> exists|k: int|
            #![trigger names_of(*record)[k]]
            {
                &&& 0 <= k < names_of(*record).len()
                &&& position_of(palette.entries(), names_of(*record)[k]) is None
                &&& forall|j: int| 0 <= j < k ==> (#[trigger] position_of(palette.entries(), names_of(*record)[j])) is Some
                &&& r matches Err(LevelError::PaletteLookup { name }) && name@ == names_of(*record)[k]
            },
        names_resolve(names_of(*record), palette.entries()) && !locals_valid(
            grid_of(*record),
            names_of(*record).len(),
        ) ==> exists|i: int, j: int|
            #![trigger grid_of(*record)[i][j]]
            {
                &&& 0 <= i < grid_of(*record).len()
                &&& 0 <= j < grid_of(*record)[i].len()
                &&& grid_of(*record)[i][j] >= names_of(*record).len()
                &&& forall|a: int, b: int|
                    0 <= a < grid_of(*record).len() && 0 <= b < grid_of(*record)[a].len() && (a < i || (a == i && b
                        < j)) ==> #[trigger] grid_of(*record)[a][b] < names_of(*record).len()
                &&& r == Err::<Vec<Vec<usize>>, LevelError>(
                    LevelError::PaletteIndex { index: grid_of(*record)[i][j] },
                )
            },
        r matches Ok(g) ==> g@.map_values(|row: Vec<usize>| row@) == imported(
            grid_of(*record),
            names_of(*record),
            palette.entries(),
        ),
{
    let ghost names = names_of(*record);
    let ghost d = grid_of(*record);
    let ghost p = palette.entries();
    let mut resolved: Vec<usize> = Vec::new();
    let mut k: usize = 0;
    while k < record.tiles.len()
        invariant
            names == names_of(*record),
            p == palette.entries(),
            k <= names.len(),
            resolved@.len() == k,
            forall|t: int| 0 <= t < k ==> (#[trigger] position_of(p, names[t])) == Some(resolved@[t] as int),
        decreases names.len() - k,
    {
        let name = record.tiles[k].as_str();
        assert(name@ == names[k as int]);
        match palette.index_of(name) {
            Some(index) => {
                proof {
                    assert(position_of(p, names[k as int]) == Some(index as int));
                }
                resolved.push(index);
            },
            None => {
                proof {
                    assert(position_of(p, names[k as int]) is None);
                }
                return Err(LevelError::PaletteLookup { name: record.tiles[k].clone() });
            },
        }
        k = k + 1;
    }
    let mut grid: Vec<Vec<usize>> = Vec::new();
    let mut i: usize = 0;
    while i < record.data.len()
        invariant
            names == names_of(*record),
            d == grid_of(*record),
            p == palette.entries(),
            resolved@.len() == names.len(),
            forall|t: int| 0 <= t < names.len() ==> (#[trigger] position_of(p, names[t])) == Some(resolved@[t] as int),
            i <= d.len(),
            grid@.len() == i,
            forall|a: int, b: int| 0 <= a < i && 0 <= b < d[a].len() ==> #[trigger] d[a][b] < names.len(),
            forall|a: int| 0 <= a < i ==> #[trigger] grid@[a]@ == imported(d, names, p)[a],
        decreases d.len() - i,
    {
        let mut row: Vec<usize> = Vec::new();
        let mut j: usize = 0;
        while j < record.data[i].len()
            invariant
                names == names_of(*record),
                d == grid_of(*record),
                p == palette.entries(),
                resolved@.len() == names.len(),
                forall|t: int| 0 <= t < names.len() ==> (#[trigger] position_of(p, names[t])) == Some(resolved@[t] as int),
                i < d.len(),
                j <= d[i as int].len(),
                row@.len() == j,
                forall|a: int, b: int| 0 <= a < i && 0 <= b < d[a].len() ==> #[trigger] d[a][b] < names.len(),
                forall|b: int| 0 <= b < j ==> #[trigger] d[i as int][b] < names.len(),
                forall|b: int| 0 <= b < j ==> #[trigger] row@[b] == imported(d, names, p)[i as int][b],
            decreases d[i as int].len() - j,
        {
            let local = record.data[i][j];
            assert(d[i as int][j as int] == local);
            if local >= resolved.len() {
                proof {
                    assert(!locals_valid(d, names.len()));
                    assert(names_resolve(names, p));
                }
                return Err(LevelError::PaletteIndex { index: local });
            }
            proof {
                assert(position_of(p, names[local as int]) == Some(resolved@[local as int] as int));
            }
            row.push(resolved[local]);
            j = j + 1;
        }
        proof {
            assert(row@ =~= imported(d, names, p)[i as int]);
        }
        grid.push(row);
        i = i + 1;
    }
    proof {
        assert(grid@.map_values(|row: Vec<usize>| row@) =~= imported(d, names, p));
    }
    Ok(grid)
}

/// Exporting a level to a room record and importing the record against the
/// same palette gives back the level's grid.
pub proof fn lemma_room_round_trip(
    g: Seq<Seq<usize>>,
    p: Seq<(Seq<char>, Tile)>,
    class: nat,
    used: Seq<usize>,
    record: RoomTile,
)
    requires
        names_unique(p),
        exported_as(g, p, class, used, record),
    ensures
        names_resolve(names_of(record), p),
        locals_valid(grid_of(record), names_of(record).len()),
        imported(grid_of(record), names_of(record), p) == g,
{
    reveal(exported_as);
    let names = names_of(record);
    let d = grid_of(record);
    assert forall|k: int| 0 <= k < names.len() implies #[trigger] position_of(p, names[k]) == Some(used[k] as int) by {
        assert(record.tiles@[k]@ == p[used[k] as int].0);
        assert(exists|i: int| 0 <= i < p.len() && (#[trigger] p[i]).0 == names[k]) by {
            assert(p[used[k] as int].0 == names[k]);
        }
        let c = choose|i: int| 0 <= i < p.len() && (#[trigger] p[i]).0 == names[k];
        if c != used[k] as int {
            assert(p[c].0 != p[used[k] as int].0);
        }
    }
    assert forall|i: int, j: int| 0 <= i < d.len() && 0 <= j < d[i].len() implies #[trigger] d[i][j] < names.len() by {
        assert(d[i] == record.data@[i]@);
        assert(record.data@[i]@[j] < used.len());
    }
    let im = imported(d, names, p);
    assert forall|i: int| 0 <= i < g.len() implies #[trigger] im[i] =~= g[i] by {
        assert(d[i] == record.data@[i]@);
        assert forall|j: int| 0 <= j < g[i].len() implies #[trigger] im[i][j] == g[i][j] by {
            assert(record.data@[i]@[j] < used.len());
            assert(position_of(p, names[d[i][j] as int]) == Some(used[d[i][j] as int] as int));
        }
    }
    assert(im =~= g);
}

} // verus!
