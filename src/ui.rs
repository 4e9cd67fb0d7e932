use vstd::prelude::*;

use crate::display::{void_tile, Display};
use crate::tile::{Tile, DEFAULT_BACK, DEFAULT_FORE};
use crate::vec2::UVec2;

verus! {

pub const BLOCK_FULL: char = '█';
pub const BLOCK_7_8: char = '▉';
pub const BLOCK_6_8: char = '▊';
pub const BLOCK_5_8: char = '▋';
pub const BLOCK_4_8: char = '▌';
pub const BLOCK_3_8: char = '▍';
pub const BLOCK_2_8: char = '▎';
pub const BLOCK_1_8: char = '▏';
pub const BLOCK_END: char = '▏';

pub const LINE_HORZ: char = '─';
pub const LINE_VERT: char = '│';
pub const LINE_DOWN_RIGHT: char = '┌';
pub const LINE_DOWN_LEFT: char = '┐';
pub const LINE_UP_RIGHT: char = '└';
pub const LINE_UP_LEFT: char = '┘';

/// The partial block drawn for a remainder of `r` eighths (none for 0).
pub open spec fn partial_block(r: nat) -> Seq<char> {
    if r == 0 {
        seq![]
    } else if r == 1 {
        seq![BLOCK_1_8]
    } else if r == 2 {
        seq![BLOCK_2_8]
    } else if r == 3 {
        seq![BLOCK_3_8]
    } else if r == 4 {
        seq![BLOCK_4_8]
    } else if r == 5 {
        seq![BLOCK_5_8]
    } else if r == 6 {
        seq![BLOCK_6_8]
    } else {
        seq![BLOCK_7_8]
    }
}

/// A gauge of `value` out of `end`: one full block per 8, a partial block
/// for the remaining eighths, one space per 8 still missing to `end`, and
/// an end mark.
pub open spec fn bar_text(value: u8, end: u8) -> Seq<char> {
    Seq::new((value / 8) as nat, |i: int| BLOCK_FULL) + partial_block((value % 8) as nat) + Seq::new(
        ((end - value) / 8) as nat,
        |i: int| ' ',
    ) + seq![BLOCK_END]
}

/// Relies on `String`'s `FromIterator<char>`: the characters in order.
#[verifier::external_body]
fn string_from_chars(chars: &Vec<char>) -> (r: String)
    ensures
        r@ == chars@,
{
    chars.iter().collect()
}

/// Draws a gauge of `value` out of `end` (see `bar_text`). Only the
/// unshaded style exists.
pub fn text_bar(value: u8, end: u8, shaded: bool) -> (r: String)
    requires
        value <= end,
        !shaded,
    ensures
        r@ == bar_text(value, end),
{
    let mut bar: Vec<char> = Vec::new();
    let mut i: u8 = 0;
    while i < value / 8
        invariant
            i <= value / 8,
            bar@ == Seq::new(i as nat, |k: int| BLOCK_FULL),
        decreases value / 8 - i,
    {
        bar.push(BLOCK_FULL);
        i = i + 1;
        proof {
            assert(bar@ =~= Seq::new(i as nat, |k: int| BLOCK_FULL));
        }
    }
    let ghost full = bar@;
    match value % 8 {
        0 => {},
        1 => bar.push(BLOCK_1_8),
        2 => bar.push(BLOCK_2_8),
        3 => bar.push(BLOCK_3_8),
        4 => bar.push(BLOCK_4_8),
        5 => bar.push(BLOCK_5_8),
        6 => bar.push(BLOCK_6_8),
        _ => bar.push(BLOCK_7_8),
    }
    assert(bar@ =~= full + partial_block((value % 8) as nat));
    let ghost head = bar@;
    let gap = (end - value) / 8;
    let mut j: u8 = 0;
    while j < gap
        invariant
            j <= gap,
            bar@ == head + Seq::new(j as nat, |k: int| ' '),
        decreases gap - j,
    {
        bar.push(' ');
        j = j + 1;
        proof {
            assert(bar@ =~= head + Seq::new(j as nat, |k: int| ' '));
        }
    }
    bar.push(BLOCK_END);
    assert(bar@ =~= bar_text(value, end));
    string_from_chars(&bar)
}

/// The colour of the frame and the selection pointer.
pub const FRAME_FORE: u8 = 15;

/// The pointer drawn before the selected row.
pub const POINTER: char = '>';

/// A frame tile showing `glyph`.
pub open spec fn frame_tile(glyph: char) -> Tile {
    Tile { glyph, fore: FRAME_FORE, back: 0, passable: true }
}

/// The tile of the menu's title at offset `k`, or the top border past it.
pub open spec fn title_tile(name: Seq<char>, k: int) -> Tile {
    if k < name.len() {
        Tile { glyph: name[k], fore: DEFAULT_FORE, back: DEFAULT_BACK, passable: false }
    } else {
        frame_tile(LINE_HORZ)
    }
}

/// The corners over the display cell `(r, c)`, which showed `under`.
pub open spec fn corner_layer(m: Menu, r: int, c: int, under: Tile) -> Tile {
    let (px, py, sx, sy) = (m.spec_position().x as int, m.spec_position().y as int, m.spec_size().x as int, m.spec_size().y as int);
    if r == py + sy && c == px + sx {
        frame_tile(LINE_UP_LEFT)
    } else if r == py + sy && c == px {
        frame_tile(LINE_UP_RIGHT)
    } else if r == py && c == px + sx {
        frame_tile(LINE_DOWN_LEFT)
    } else if r == py && c == px {
        frame_tile(LINE_DOWN_RIGHT)
    } else {
        under
    }
}

/// The top (title) and bottom borders for the first `k` inner columns,
/// over the corners.
pub open spec fn border_layer(m: Menu, k: int, r: int, c: int, under: Tile) -> Tile {
    let (px, py, sy) = (m.spec_position().x as int, m.spec_position().y as int, m.spec_size().y as int);
    if px + 1 <= c < px + 1 + k && r == py + sy {
        frame_tile(LINE_HORZ)
    } else if px + 1 <= c < px + 1 + k && r == py {
        title_tile(m.spec_name(), c - px - 1)
    } else {
        corner_layer(m, r, c, under)
    }
}

/// The side borders for the first `k` inner rows, over the top and bottom.
pub open spec fn side_layer(m: Menu, k: int, r: int, c: int, under: Tile) -> Tile {
    let (px, py, sx) = (m.spec_position().x as int, m.spec_position().y as int, m.spec_size().x as int);
    if (c == px || c == px + sx) && py + 1 <= r < py + 1 + k {
        frame_tile(LINE_VERT)
    } else {
        border_layer(m, m.spec_size().x - 1, r, c, under)
    }
}

/// The tile of row `i` of the item list at offset `j`: the pointer (or a
/// blank) at 0, a blank at 1, then the item's tiles, then blanks; a row with
/// no item is blank.
pub open spec fn item_tile(m: Menu, i: int, j: int) -> Tile {
    if i < m.spec_items().len() {
        if j == 0 {
            if m.spec_selection() == i {
                frame_tile(POINTER)
            } else {
                void_tile()
            }
        } else if j == 1 {
            void_tile()
        } else if j < m.spec_items()[i]@.len() + 2 {
            m.spec_items()[i]@[j - 2]
        } else {
            void_tile()
        }
    } else {
        void_tile()
    }
}

/// The item rows, drawn from display row 2 and column 2 up to row `size.y`
/// and column `size.x`: full rows before row `2 + k`, and the first `j`
/// columns of that row, over the frame.
pub open spec fn item_layer(m: Menu, k: int, j: int, r: int, c: int, under: Tile) -> Tile {
    let (sx, sy) = (m.spec_size().x as int, m.spec_size().y as int);
    if 2 <= c <= sx && 2 <= r < 2 + k {
        item_tile(m, r - 2, c - 2)
    } else if 2 <= c < 2 + j && r == 2 + k {
        item_tile(m, r - 2, c - 2)
    } else {
        side_layer(m, m.spec_size().y - 1, r, c, under)
    }
}

/// What cell `(r, c)` shows once the menu is drawn over a display that
/// showed `under` there.
pub open spec fn menu_cell(m: Menu, r: int, c: int, under: Tile) -> Tile {
    item_layer(m, m.spec_size().y - 1, 0, r, c, under)
}

/// Writes `t` at row `r`, column `c`.
fn put(display: &mut Display, r: usize, c: usize, t: Tile)
    requires
        old(display).wf(),
        r < old(display).size.y,
        c < old(display).size.x,
    ensures
        final(display).wf(),
        final(display).size == old(display).size,
        final(display).cells() == old(display).cells().update(r as int, old(display).cells()[r as int].update(c as int, t)),
{
    display.data[r][c] = t;
    proof {
        assert(display.cells() =~= old(display).cells().update(r as int, old(display).cells()[r as int].update(c as int, t)));
    }
}

/// A widget drawn over the display.
pub trait Ui {
    /// Draws the widget over the display, keeping its size and shape.
    fn render_to(&self, display: &mut Display)
        requires
            old(display).wf(),
        ensures
            final(display).wf(),
            final(display).size == old(display).size,
    ;

    fn get_focus(&self) -> bool;

    fn set_focus(&mut self, state: bool);
}

/// A framed list of selectable rows drawn over the display.
pub struct Menu {
    name: String,
    items: Vec<Vec<Tile>>,
    pub selection: usize,
    position: UVec2,
    size: UVec2,
    focus: bool,
}

impl Menu {
    pub closed spec fn spec_name(self) -> Seq<char> {
        self.name@
    }

    pub closed spec fn spec_items(self) -> Seq<Vec<Tile>> {
        self.items@
    }

    pub closed spec fn spec_position(self) -> UVec2 {
        self.position
    }

    pub closed spec fn spec_size(self) -> UVec2 {
        self.size
    }

    pub closed spec fn spec_focus(self) -> bool {
        self.focus
    }

    pub closed spec fn spec_selection(self) -> usize {
        self.selection
    }

    /// A focused menu with the first row selected.
    pub fn new(name: &str, position: UVec2, size: UVec2, items: Vec<Vec<Tile>>) -> (r: Self)
        ensures
            r.spec_name() == name@,
            r.spec_items() == items@,
            r.spec_position() == position,
            r.spec_size() == size,
            r.spec_selection() == 0,
            r.spec_focus(),
    {
        Menu { name: name.to_owned(), position, items, size, selection: 0, focus: true }
    }

    /// Selects the next row, staying on the last one.
    pub fn next(&mut self)
        ensures
            final(self).spec_selection() == if old(self).spec_selection() + 1 < old(self).spec_items().len() {
                old(self).spec_selection() + 1
            } else {
                old(self).spec_selection() as int
            },
            final(self).spec_name() == old(self).spec_name(),
            final(self).spec_items() == old(self).spec_items(),
            final(self).spec_position() == old(self).spec_position(),
            final(self).spec_size() == old(self).spec_size(),
            final(self).spec_focus() == old(self).spec_focus(),
    {
        if self.selection < self.items.len() && self.selection + 1 < self.items.len() {
            self.selection += 1;
        }
    }

    /// Selects the previous row, staying on the first one.
    pub fn prev(&mut self)
        ensures
            final(self).spec_selection() == if old(self).spec_selection() > 0 {
                old(self).spec_selection() - 1
            } else {
                0
            },
            final(self).spec_name() == old(self).spec_name(),
            final(self).spec_items() == old(self).spec_items(),
            final(self).spec_position() == old(self).spec_position(),
            final(self).spec_size() == old(self).spec_size(),
            final(self).spec_focus() == old(self).spec_focus(),
    {
        if self.selection > 0 {
            self.selection -= 1;
        }
    }

    pub fn position_x(&self) -> (r: u16)
        ensures
            r == self.spec_position().x,
    {
        self.position.x
    }

    pub fn position_y(&self) -> (r: u16)
        ensures
            r == self.spec_position().y,
    {
        self.position.y
    }

    pub fn size_x(&self) -> (r: u16)
        ensures
            r == self.spec_size().x,
    {
        self.size.x
    }

    pub fn size_y(&self) -> (r: u16)
        ensures
            r == self.spec_size().y,
    {
        self.size.y
    }

    /// The selected row.
    pub fn selection(&self) -> (r: usize)
        ensures
            r == self.spec_selection(),
    {
        self.selection
    }

    pub fn get_focus(&self) -> (r: bool)
        ensures
            r == self.spec_focus(),
    {
        self.focus
    }

    pub fn set_focus(&mut self, state: bool)
        ensures
            final(self).spec_focus() == state,
            final(self).spec_selection() == old(self).spec_selection(),
            final(self).spec_name() == old(self).spec_name(),
            final(self).spec_items() == old(self).spec_items(),
            final(self).spec_position() == old(self).spec_position(),
            final(self).spec_size() == old(self).spec_size(),
    {
        self.focus = state;
    }
    /// Draws the menu over the display (see `menu_cell`): the frame with
    /// the title in its top border at the menu's position, and the item
    /// rows from display row and column 2.
    pub fn render_to(&self, display: &mut Display)
        requires
            old(display).wf(),
            self.spec_position().x + self.spec_size().x < old(display).size.x,
            self.spec_position().y + self.spec_size().y < old(display).size.y,
        ensures
            final(display).wf(),
            final(display).size == old(display).size,
            forall|r: int, c: int|
                0 <= r < old(display).size.y && 0 <= c < old(display).size.x ==> #[trigger] final(display).cells()[r][c]
                    == menu_cell(*self, r, c, old(display).cells()[r][c]),
    {
        let ghost g0 = display.cells();
        let ghost dsize = display.size;
        let name = Tile::from_string(self.name.as_str(), Some(FRAME_FORE), Some(0));
        let (px, py) = (self.position.x as usize, self.position.y as usize);
        let (sx, sy) = (self.size.x as usize, self.size.y as usize);
        put(display, py, px, Tile::new(LINE_DOWN_RIGHT, FRAME_FORE, 0, true));
        put(display, py, px + sx, Tile::new(LINE_DOWN_LEFT, FRAME_FORE, 0, true));
        put(display, py + sy, px, Tile::new(LINE_UP_RIGHT, FRAME_FORE, 0, true));
        put(display, py + sy, px + sx, Tile::new(LINE_UP_LEFT, FRAME_FORE, 0, true));
        assert forall|r: int, c: int| 0 <= r < dsize.y && 0 <= c < dsize.x implies #[trigger] display.cells()[r][c]
            == border_layer(*self, 0, r, c, g0[r][c]) by {}
        let mut col: usize = 1;
        while col < sx
            invariant
                display.wf(),
                display.size == dsize,
                g0.len() == dsize.y,
                forall|r: int| 0 <= r < dsize.y ==> (#[trigger] g0[r]).len() == dsize.x,
                px == self.spec_position().x && py == self.spec_position().y,
                sx == self.spec_size().x && sy == self.spec_size().y,
                px + sx < dsize.x,
                py + sy < dsize.y,
                1 <= col <= sx || (sx == 0 && col == 1),
                name@.len() == self.spec_name().len(),
                forall|k: int| 0 <= k < name@.len() ==> #[trigger] name@[k] == title_tile(self.spec_name(), k),
                forall|r: int, c: int|
                    0 <= r < dsize.y && 0 <= c < dsize.x ==> #[trigger] display.cells()[r][c] == border_layer(
                        *self,
                        col - 1,
                        r,
                        c,
                        g0[r][c],
                    ),
            decreases sx - col,
        {
            let index = col - 1;
            let top = if index < name.len() {
                name[index]
            } else {
                Tile::new(LINE_HORZ, FRAME_FORE, 0, true)
            };
            put(display, py, px + col, top);
            put(display, py + sy, px + col, Tile::new(LINE_HORZ, FRAME_FORE, 0, true));
            col = col + 1;
        }
        assert forall|r: int, c: int| 0 <= r < dsize.y && 0 <= c < dsize.x implies #[trigger] display.cells()[r][c]
            == side_layer(*self, 0, r, c, g0[r][c]) by {}
        let mut row: usize = 1;
        while row < sy
            invariant
                display.wf(),
                display.size == dsize,
                g0.len() == dsize.y,
                forall|r: int| 0 <= r < dsize.y ==> (#[trigger] g0[r]).len() == dsize.x,
                px == self.spec_position().x && py == self.spec_position().y,
                sx == self.spec_size().x && sy == self.spec_size().y,
                px + sx < dsize.x,
                py + sy < dsize.y,
                1 <= row <= sy || (sy == 0 && row == 1),
                forall|r: int, c: int|
                    0 <= r < dsize.y && 0 <= c < dsize.x ==> #[trigger] display.cells()[r][c] == side_layer(
                        *self,
                        row - 1,
                        r,
                        c,
                        g0[r][c],
                    ),
            decreases sy - row,
        {
            put(display, py + row, px, Tile::new(LINE_VERT, FRAME_FORE, 0, true));
            put(display, py + row, px + sx, Tile::new(LINE_VERT, FRAME_FORE, 0, true));
            row = row + 1;
        }
        assert forall|r: int, c: int| 0 <= r < dsize.y && 0 <= c < dsize.x implies #[trigger] display.cells()[r][c]
            == item_layer(*self, 0, 0, r, c, g0[r][c]) by {}
        let mut row: usize = 2;
        while row <= sy
            invariant
                display.wf(),
                display.size == dsize,
                g0.len() == dsize.y,
                forall|r: int| 0 <= r < dsize.y ==> (#[trigger] g0[r]).len() == dsize.x,
                px == self.spec_position().x && py == self.spec_position().y,
                sx == self.spec_size().x && sy == self.spec_size().y,
                px + sx < dsize.x,
                py + sy < dsize.y,
                2 <= row <= sy + 1 || (sy < 2 && row == 2),
                forall|r: int, c: int|
                    0 <= r < dsize.y && 0 <= c < dsize.x ==> #[trigger] display.cells()[r][c] == item_layer(
                        *self,
                        row - 2,
                        0,
                        r,
                        c,
                        g0[r][c],
                    ),
            decreases sy + 1 - row,
        {
            let item_i = row - 2;
            let mut col: usize = 2;
            while col <= sx
                invariant
                    display.wf(),
                    display.size == dsize,
                    g0.len() == dsize.y,
                    forall|r: int| 0 <= r < dsize.y ==> (#[trigger] g0[r]).len() == dsize.x,
                    px == self.spec_position().x && py == self.spec_position().y,
                    sx == self.spec_size().x && sy == self.spec_size().y,
                    px + sx < dsize.x,
                    py + sy < dsize.y,
                    2 <= row <= sy,
                    item_i == row - 2,
                    2 <= col <= sx + 1 || (sx < 2 && col == 2),
                    forall|r: int, c: int|
                        0 <= r < dsize.y && 0 <= c < dsize.x ==> #[trigger] display.cells()[r][c] == item_layer(
                            *self,
                            row - 2,
                            col - 2,
                            r,
                            c,
                            g0[r][c],
                        ),
                decreases sx + 1 - col,
            {
                let index = col - 2;
                let t = if item_i < self.items.len() {
                    if index == 0 {
                        if self.selection == item_i {
                            Tile::new(POINTER, FRAME_FORE, 0, true)
                        } else {
                            Tile::new(' ', 0, 0, true)
                        }
                    } else if index == 1 {
                        Tile::new(' ', 0, 0, true)
                    } else if index - 2 < self.items[item_i].len() {
                        self.items[item_i][index - 2]
                    } else {
                        Tile::new(' ', 0, 0, true)
                    }
                } else {
                    Tile::new(' ', 0, 0, true)
                };
                assert(t == item_tile(*self, item_i as int, index as int));
                put(display, row, col, t);
                col = col + 1;
            }
            assert forall|r: int, c: int| 0 <= r < dsize.y && 0 <= c < dsize.x implies #[trigger] display.cells()[r][c]
                == item_layer(*self, row - 1, 0, r, c, g0[r][c]) by {}
            row = row + 1;
        }
    }
}

impl Ui for Menu {
    /// Draws the menu (see `Menu::render_to`) when it fits the display;
    /// otherwise leaves the display as it is.
    fn render_to(&self, display: &mut Display) {
        if (self.position.x as u32) + (self.size.x as u32) < display.size.x as u32 && (self.position.y as u32)
            + (self.size.y as u32) < display.size.y as u32 {
            Menu::render_to(self, display);
        }
    }

    fn get_focus(&self) -> bool {
        Menu::get_focus(self)
    }

    fn set_focus(&mut self, state: bool) {
        Menu::set_focus(self, state)
    }
}

} // verus!
