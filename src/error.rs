use vstd::prelude::*;

verus! {

/// Why an operation on the level, its rooms or the palette was refused.
#[derive(Debug, PartialEq, Eq)]
pub enum LevelError {
    /// A write would fall outside the grid; carries the offending coordinate.
    GridBounds { x: u32, y: u32 },
    /// A tile name is missing from the palette.
    PaletteLookup { name: String },
    /// A tile index has no entry in the palette.
    PaletteIndex { index: usize },
    /// A generation parameter (depth, room size) cannot be honoured.
    Configuration,
}

} // verus!
