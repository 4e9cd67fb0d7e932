use vstd::prelude::*;

verus! {

/// Foreground colour used when none is given.
pub const DEFAULT_FORE: u8 = 15;

/// Background colour used when none is given.
pub const DEFAULT_BACK: u8 = 0;

/// A visual tile: a glyph, foreground and background colour indices
/// (0-255), and whether it can be walked on.
#[derive(Clone, Copy, Debug, PartialEq, Eq, Structural)]
pub struct Tile {
    pub glyph: char,
    pub fore: u8,
    pub back: u8,
    pub passable: bool,
}

impl Tile {
    pub fn new(glyph: char, fore: u8, back: u8, passable: bool) -> (r: Self)
        ensures
            r == (Tile { glyph, fore, back, passable }),
    {
        Tile { glyph, fore, back, passable }
    }

    /// One impassable tile per character of `s`, in order, with the given
    /// colours (foreground 15 and background 0 when absent).
    pub fn from_string(s: &str, fore: Option<u8>, back: Option<u8>) -> (r: Vec<Self>)
        ensures
            r@.len() == s@.len(),
            forall|k: int|
                0 <= k < s@.len() ==> #[trigger] r@[k] == (Tile {
                    glyph: s@[k],
                    fore: match fore {
                        Some(f) => f,
                        None => DEFAULT_FORE,
                    },
                    back: match back {
                        Some(b) => b,
                        None => DEFAULT_BACK,
                    },
                    passable: false,
                }),
    {
        let f = match fore {
            Some(f) => f,
            None => DEFAULT_FORE,
        };
        let b = match back {
            Some(b) => b,
            None => DEFAULT_BACK,
        };
        let mut tiles: Vec<Tile> = Vec::new();
        proof {
            broadcast use vstd::string::axiom_spec_iter;
        }
        for c in it: s.chars()
            invariant
                it.seq() == s@,
                tiles@.len() == it.index(),
                forall|k: int|
                    0 <= k < it.index() ==> #[trigger] tiles@[k] == (Tile {
                        glyph: s@[k],
                        fore: f,
                        back: b,
                        passable: false,
                    }),
        {
            tiles.push(Tile::new(c, f, b, false));
        }
        tiles
    }
}

} // verus!
