use vstd::prelude::*;

use crate::display::{indices_valid, projected, void_tile, Display};
use crate::input::{GetInput, Input, TextInput};
use crate::level::Level;
use crate::palette::Palette;
use crate::tile::Tile;
use crate::ui::{menu_cell, Menu};
use crate::vec2::{IVec2, UVec2};

verus! {

/// Rows of the terminal taken by the status header above the display.
pub const HEADER_ROWS: u16 = 3;

/// Whether every character is a decimal digit.
pub open spec fn all_digits(s: Seq<char>) -> bool {
    forall|i: int| 0 <= i < s.len() ==> '0' <= #[trigger] s[i] <= '9'
}

/// The value of a string of decimal digits.
pub open spec fn digits_value(s: Seq<char>) -> nat
    decreases s.len(),
{
    if s.len() == 0 {
        0
    } else {
        digits_value(s.drop_last()) * 10 + (s.last() as nat - '0' as nat) as nat
    }
}

/// The digits of a typed count: all of it, less one leading `+`.
pub open spec fn count_digits(s: Seq<char>) -> Seq<char> {
    if s.len() > 0 && s[0] == '+' {
        s.drop_first()
    } else {
        s
    }
}

/// The repeat count typed before a move, read as an unsigned decimal with
/// an optional leading `+`: its value when there is at least one digit,
/// nothing but digits after the sign, and the value fits in a `u16`; else 1.
pub open spec fn repeat_count(s: Seq<char>) -> nat {
    let d = count_digits(s);
    if d.len() > 0 && all_digits(d) && digits_value(d) <= u16::MAX {
        digits_value(d)
    } else {
        1
    }
}

/// Where `steps` moves by `delta` from `pos` lead inside a level of `size`,
/// each spending one hunger point: walking stops early when hunger runs out
/// or the next cell is outside the level. Gives the end cell and hunger.
pub open spec fn walk(pos: UVec2, hunger: u16, delta: IVec2, steps: nat, size: UVec2) -> (UVec2, u16)
    decreases steps,
{
    let nx = pos.x + delta.x;
    let ny = pos.y + delta.y;
    if steps == 0 || hunger == 0 || nx < 0 || ny < 0 || nx >= size.x || ny >= size.y {
        (pos, hunger)
    } else {
        walk(UVec2 { x: nx as u16, y: ny as u16 }, (hunger - 1) as u16, delta, (steps - 1) as nat, size)
    }
}

/// The unit move of a direction command, if it is one.
pub open spec fn direction(input: Input) -> Option<IVec2> {
    match input {
        Input::Left => Some(IVec2 { x: -1i16, y: 0 }),
        Input::Up => Some(IVec2 { x: 0, y: -1i16 }),
        Input::Down => Some(IVec2 { x: 0, y: 1 }),
        Input::Right => Some(IVec2 { x: 1, y: 0 }),
        Input::UpLeft => Some(IVec2 { x: -1i16, y: -1i16 }),
        Input::UpRight => Some(IVec2 { x: 1, y: -1i16 }),
        Input::DownLeft => Some(IVec2 { x: -1i16, y: 1 }),
        Input::DownRight => Some(IVec2 { x: 1, y: 1 }),
        _ => None,
    }
}

/// Whether `m` can be drawn on a display of `size`.
pub open spec fn menu_fits(m: Menu, size: UVec2) -> bool {
    m.spec_position().x + m.spec_size().x < size.x && m.spec_position().y + m.spec_size().y < size.y
}

/// `g` with the menus drawn over it in order, skipping any that do not fit.
pub open spec fn menus_over(g: Seq<Seq<Tile>>, menus: Seq<Menu>, size: UVec2) -> Seq<Seq<Tile>>
    decreases menus.len(),
{
    if menus.len() == 0 {
        g
    } else {
        let prev = menus_over(g, menus.drop_last(), size);
        let m = menus.last();
        if menu_fits(m, size) {
            Seq::new(prev.len(), |r: int| Seq::new(prev[r].len(), |c: int| menu_cell(m, r, c, prev[r][c])))
        } else {
            prev
        }
    }
}

/// `g` with its first row starting with the first `n` of `text`.
pub open spec fn text_over(g: Seq<Seq<Tile>>, text: Seq<Tile>, n: int) -> Seq<Seq<Tile>> {
    Seq::new(
        g.len(),
        |r: int| Seq::new(g[r].len(), |c: int| if r == 0 && c < n { text[c] } else { g[r][c] }),
    )
}

/// How many name tiles are shown: the name's length, within the display's
/// height and width.
pub open spec fn name_shown(len: int, size: UVec2) -> int {
    let a = if len <= size.y { len } else { size.y as int };
    if a <= size.x { a } else { size.x as int }
}

/// The tiles of a typed name: white on black, not passable.
pub open spec fn name_tiles(name: Seq<char>) -> Seq<Tile> {
    name.map_values(|c: char| name_tile(c))
}

/// A character of a typed name as a tile.
pub open spec fn name_tile(c: char) -> Tile {
    Tile { glyph: c, fore: 15, back: 0, passable: false }
}

/// What the display shows for state `st`: the level projected around the
/// player, the menus over it, and the typed name at the top left.
pub open spec fn shown(st: GameState) -> Seq<Seq<Tile>> {
    let size = st.display.size;
    let base = Seq::new(
        size.y as nat,
        |di: int| Seq::new(size.x as nat, |dj: int| projected(st.level, st.tiles.entries(), st.position, size, di, dj)),
    );
    text_over(menus_over(base, st.ui@, size), name_tiles(st.name@), name_shown(st.name@.len() as int, size))
}

/// `b` differs from `a` in the display only.
pub open spec fn same_but_display(a: GameState, b: GameState) -> bool {
    &&& b.level == a.level
    &&& b.tiles == a.tiles
    &&& b.position == a.position
    &&& b.hunger == a.hunger
    &&& b.health == a.health
    &&& b.quit == a.quit
    &&& b.number == a.number
    &&& b.ui == a.ui
    &&& b.name == a.name
    &&& b.text_input == a.text_input
}

/// Whether a `Select` can write the menu's choice under the player: there is
/// a menu, the player is inside the level, and the choice names a tile.
pub open spec fn can_select(st: GameState) -> bool {
    &&& st.ui@.len() > 0
    &&& st.position.y < st.level.size.y
    &&& st.position.x < st.level.size.x
    &&& st.ui@[0].spec_selection() < st.tiles.entries().len()
}

/// Menu `b` is menu `a` with only the selection possibly changed.
pub open spec fn same_menu_but_selection(a: Menu, b: Menu) -> bool {
    &&& b.spec_name() == a.spec_name()
    &&& b.spec_items() == a.spec_items()
    &&& b.spec_position() == a.spec_position()
    &&& b.spec_size() == a.spec_size()
    &&& b.spec_focus() == a.spec_focus()
}

/// `b` is `a` after the text-mode key `key`: a character is appended to the
/// name, backspace removes its last character, escape leaves text mode.
pub open spec fn text_applied(a: GameState, b: GameState, key: TextInput) -> bool {
    &&& b.name@ == match key {
        TextInput::Char(c) => a.name@.push(c),
        TextInput::Backspace => if a.name@.len() > 0 {
            a.name@.drop_last()
        } else {
            a.name@
        },
        _ => a.name@,
    }
    &&& b.text_input == (a.text_input && key != TextInput::Exit)
    &&& b.display == a.display
    &&& b.level == a.level
    &&& b.tiles == a.tiles
    &&& b.position == a.position
    &&& b.hunger == a.hunger
    &&& b.health == a.health
    &&& b.quit == a.quit
    &&& b.number == a.number
    &&& b.ui == a.ui
}

/// `b` is `a` after the command `input`: quit, a move repeated by the typed
/// count (see `walk`), a digit of that count, a menu step, writing the
/// menu's choice under the player (when `can_select`), or entering text
/// mode.
pub open spec fn input_applied(a: GameState, b: GameState, input: Input) -> bool {
    &&& b.wf()
    &&& b.quit == (a.quit || input == Input::Quit)
    &&& b.text_input == (a.text_input || input == Input::EnterText)
    &&& b.name == a.name
    &&& b.health == a.health
    &&& b.display == a.display
    &&& b.tiles == a.tiles
    &&& b.level.size == a.level.size
    &&& match direction(input) {
        Some(d) => (b.position, b.hunger) == walk(
            a.position,
            a.hunger,
            d,
            repeat_count(a.number@),
            a.level.size,
        ) && b.number@ == Seq::<char>::empty(),
        None => b.position == a.position && b.hunger == a.hunger
            && b.number@ == match input {
            Input::Number(c) => if '0' <= c <= '9' {
                a.number@.push(c)
            } else {
                a.number@
            },
            _ => a.number@,
        },
    }
    &&& input == Input::Select && can_select(a) ==> b.level.grid() == a.level.grid().update(
        a.position.y as int,
        a.level.grid()[a.position.y as int].update(
            a.position.x as int,
            a.ui@[0].spec_selection(),
        ),
    )
    &&& !(input == Input::Select && can_select(a)) ==> b.level == a.level
    &&& (input == Input::MenuPrev || input == Input::MenuNext) && a.ui@.len() > 0 ==> {
        &&& b.ui@.len() == a.ui@.len()
        &&& forall|k: int| 1 <= k < a.ui@.len() ==> #[trigger] b.ui@[k] == a.ui@[k]
        &&& same_menu_but_selection(a.ui@[0], b.ui@[0])
        &&& b.ui@[0].spec_selection() == if input == Input::MenuPrev {
            if a.ui@[0].spec_selection() > 0 {
                a.ui@[0].spec_selection() - 1
            } else {
                0
            }
        } else if a.ui@[0].spec_selection() + 1 < a.ui@[0].spec_items().len() {
            a.ui@[0].spec_selection() + 1
        } else {
            a.ui@[0].spec_selection() as int
        }
    }
    &&& !((input == Input::MenuPrev || input == Input::MenuNext) && a.ui@.len() > 0) ==> b.ui == a.ui
}

proof fn lemma_menus_over_shape(g: Seq<Seq<Tile>>, menus: Seq<Menu>, size: UVec2)
    requires
        g.len() == size.y,
        forall|i: int| 0 <= i < size.y ==> (#[trigger] g[i]).len() == size.x,
    ensures
        menus_over(g, menus, size).len() == size.y,
        forall|i: int| 0 <= i < size.y ==> (#[trigger] menus_over(g, menus, size)[i]).len() == size.x,
    decreases menus.len(),
{
    if menus.len() > 0 {
        lemma_menus_over_shape(g, menus.drop_last(), size);
    }
}

/// Relies on `String::push`: the character is appended.
#[verifier::external_body]
fn push_char(s: &mut String, c: char)
    ensures
        final(s)@ == old(s)@.push(c),
{
    s.push(c)
}

/// Relies on `String::pop`: the last character is removed and returned,
/// `None` for an empty string.
#[verifier::external_body]
fn pop_char(s: &mut String) -> (r: Option<char>)
    ensures
        old(s)@.len() == 0 ==> r is None && final(s)@ == old(s)@,
        old(s)@.len() > 0 ==> r == Some(old(s)@.last()) && final(s)@ == old(s)@.drop_last(),
{
    s.pop()
}

/// The game: the level, its palette, the player, and what is shown.
pub struct GameState {
    pub display: Display,
    pub health: u16,
    pub hunger: u16,
    pub quit: bool,
    pub position: UVec2,
    pub level: Level,
    pub number: String,
    pub tiles: Palette,
    pub ui: Vec<Menu>,
    pub name: String,
    pub text_input: bool,
}

impl GameState {
    /// The buffers have their sizes and every level cell names a palette tile.
    pub open spec fn wf(self) -> bool {
        &&& self.display.wf()
        &&& self.level.wf()
        &&& indices_valid(self.level, self.tiles.entries())
    }

    /// A new game on `level` with palette `tiles`, for a terminal of
    /// `terminal` size: the display takes all but the header rows. The player
    /// starts at (1, 1) with full health and hunger.
    pub fn init(terminal: UVec2, level: Level, tiles: Palette) -> (r: Self)
        requires
            terminal.y >= HEADER_ROWS,
        ensures
            r.display.size == (UVec2 { x: terminal.x, y: (terminal.y - HEADER_ROWS) as u16 }),
            r.display.wf(),
            forall|i: int, j: int|
                0 <= i < r.display.size.y && 0 <= j < r.display.size.x ==> r.display.cells()[i][j] == void_tile(),
            r.health == 160,
            r.hunger == 255,
            !r.quit,
            r.position == (UVec2 { x: 1, y: 1 }),
            r.level == level,
            r.number@ == Seq::<char>::empty(),
            r.tiles == tiles,
            r.ui@ == Seq::<Menu>::empty(),
            r.name@ == Seq::<char>::empty(),
            !r.text_input,
    {
        let size = UVec2 { x: terminal.x, y: terminal.y - HEADER_ROWS };
        GameState {
            display: Display::new(size),
            health: 160,
            hunger: 255,
            quit: false,
            position: UVec2 { x: 1, y: 1 },
            level,
            number: String::new(),
            tiles,
            ui: Vec::new(),
            name: String::new(),
            text_input: false,
        }
    }

    /// Gives the display a new size; its contents are blank until redrawn.
    pub fn resize(&mut self, size: UVec2)
        ensures
            final(self).display.size == size,
            final(self).display.wf(),
            forall|i: int, j: int|
                0 <= i < size.y && 0 <= j < size.x ==> final(self).display.cells()[i][j] == void_tile(),
            same_but_display(*old(self), *final(self)),
    {
        self.display = Display::new(size);
    }

    /// Applies a text-mode key: a character is appended to the name,
    /// backspace removes its last character, escape leaves text mode.
    pub fn handle_text(&mut self, key: TextInput)
        ensures
            text_applied(*old(self), *final(self), key),
    {
        match key {
            TextInput::Char(c) => push_char(&mut self.name, c),
            TextInput::Backspace => {
                let _ = pop_char(&mut self.name);
            },
            TextInput::Exit => self.text_input = false,
            TextInput::Idle => {},
        }
    }

    /// Applies a command: quit, a move repeated by the typed count, a digit
    /// of that count, a menu step, writing the menu's choice under the
    /// player (when `can_select`), or entering text mode.
    pub fn handle_input(&mut self, input: Input)
        requires
            old(self).wf(),
        ensures
            input_applied(*old(self), *final(self), input),
    {
        match input {
            Input::Quit => self.quit = true,
            Input::Left => self.try_move(IVec2 { x: -1, y: 0 }),
            Input::Up => self.try_move(IVec2 { x: 0, y: -1 }),
            Input::Down => self.try_move(IVec2 { x: 0, y: 1 }),
            Input::Right => self.try_move(IVec2 { x: 1, y: 0 }),
            Input::UpLeft => self.try_move(IVec2 { x: -1, y: -1 }),
            Input::UpRight => self.try_move(IVec2 { x: 1, y: -1 }),
            Input::DownLeft => self.try_move(IVec2 { x: -1, y: 1 }),
            Input::DownRight => self.try_move(IVec2 { x: 1, y: 1 }),
            Input::Number(c) => {
                if '0' <= c && c <= '9' {
                    push_char(&mut self.number, c);
                }
            },
            Input::MenuPrev => {
                if self.ui.len() > 0 {
                    self.ui[0].prev();
                }
            },
            Input::MenuNext => {
                if self.ui.len() > 0 {
                    self.ui[0].next();
                }
            },
            Input::Select => {
                if self.ui.len() > 0 && self.position.y < self.level.size.y && self.position.x
                    < self.level.size.x && self.ui[0].selection() < self.tiles.len() {
                    let selection = self.ui[0].selection();
                    self.level.set_cell(self.position.y as usize, self.position.x as usize, selection);
                }
            },
            Input::EnterText => self.text_input = true,
            _ => {},
        }
    }

    /// Redraws the display for the current state (see `shown`).
    pub fn redraw(&mut self)
        requires
            old(self).wf(),
        ensures
            final(self).wf(),
            final(self).display.size == old(self).display.size,
            final(self).display.cells() == shown(*final(self)),
            same_but_display(*old(self), *final(self)),
    {
        let ghost size = self.display.size;
        self.display.project(&self.level, &self.tiles, self.position);
        let ghost base = Seq::new(
            size.y as nat,
            |di: int| Seq::new(size.x as nat, |dj: int| projected(self.level, self.tiles.entries(), self.position, size, di, dj)),
        );
        proof {
            assert forall|i: int| 0 <= i < size.y implies #[trigger] self.display.cells()[i] =~= base[i] by {}
            assert(self.display.cells() =~= base);
        }
        let mut k: usize = 0;
        while k < self.ui.len()
            invariant
                self.wf(),
                same_but_display(*old(self), *self),
                self.display.size == size,
                k <= self.ui@.len(),
                base.len() == size.y,
                forall|i: int| 0 <= i < size.y ==> (#[trigger] base[i]).len() == size.x,
                self.display.cells() == menus_over(base, self.ui@.subrange(0, k as int), size),
            decreases self.ui@.len() - k,
        {
            let ghost prev = self.display.cells();
            let m = &self.ui[k];
            if m.position_x() as u32 + m.size_x() as u32 >= self.display.size.x as u32 || m.position_y() as u32
                + m.size_y() as u32 >= self.display.size.y as u32 {
            } else {
                m.render_to(&mut self.display);
            }
            proof {
                let done = self.ui@.subrange(0, k + 1);
                assert(done.drop_last() =~= self.ui@.subrange(0, k as int));
                assert(done.last() == self.ui@[k as int]);
                lemma_menus_over_shape(base, self.ui@.subrange(0, k as int), size);
                if menu_fits(self.ui@[k as int], size) {
                    let expect = menus_over(base, done, size);
                    assert forall|i: int| 0 <= i < size.y implies #[trigger] self.display.cells()[i] =~= expect[i] by {}
                    assert(self.display.cells() =~= expect);
                }
            }
            k = k + 1;
        }
        proof {
            assert(self.ui@.subrange(0, self.ui@.len() as int) =~= self.ui@);
            lemma_menus_over_shape(base, self.ui@, size);
        }
        let ghost drawn = self.display.cells();
        let text = Tile::from_string(self.name.as_str(), Some(15), Some(0));
        proof {
            assert(text@.len() == self.name@.len());
            assert forall|k: int| 0 <= k < text@.len() implies #[trigger] text@[k] == name_tiles(self.name@)[k] by {
                assert(text@[k] == name_tile(self.name@[k]));
            }
            assert(text@ =~= name_tiles(self.name@));
            assert forall|r: int| 0 <= r < size.y implies #[trigger] text_over(drawn, text@, 0)[r] =~= drawn[r] by {}
            assert(text_over(drawn, text@, 0) =~= drawn);
        }
        let mut i: usize = 0;
        while i < self.display.size.y as usize && i < text.len() && i < self.display.size.x as usize
            invariant
                self.wf(),
                same_but_display(*old(self), *self),
                self.display.size == size,
                drawn.len() == size.y,
                forall|r: int| 0 <= r < size.y ==> (#[trigger] drawn[r]).len() == size.x,
                text@ == name_tiles(self.name@),
                i <= name_shown(text@.len() as int, size),
                self.display.cells() == text_over(drawn, text@, i as int),
            decreases size.y - i,
        {
            proof {
                assert(self.display.data@.len() > 0);
            }
            let ghost prev = self.display.cells();
            self.display.data[0][i] = text[i];
            proof {
                let want = text_over(drawn, text@, i + 1);
                assert forall|r: int| 0 <= r < size.y implies #[trigger] self.display.cells()[r] =~= want[r] by {
                    assert forall|c: int| 0 <= c < size.x implies #[trigger] self.display.cells()[r][c] == want[r][c] by {
                        assert(prev[r][c] == text_over(drawn, text@, i as int)[r][c]);
                    }
                }
                assert(self.display.cells() =~= text_over(drawn, text@, i + 1));
            }
            i = i + 1;
        }
        proof {
            assert(i == name_shown(text@.len() as int, size));
        }
    }

    /// One tick: with no hunger left the game quits; otherwise one key is
    /// read from `inputs` and applied (in text mode as text) and the
    /// display is redrawn.
    pub fn update<G: GetInput>(&mut self, inputs: &G)
        requires
            old(self).wf(),
        ensures
            final(self).wf(),
            old(self).hunger == 0 ==> final(self).quit && final(self).display == old(self).display
                && final(self).level == old(self).level && final(self).position == old(self).position
                && final(self).hunger == old(self).hunger && final(self).number == old(self).number
                && final(self).name == old(self).name && final(self).ui == old(self).ui
                && final(self).text_input == old(self).text_input,
            old(self).hunger != 0 ==> final(self).display.cells() == shown(*final(self)) && exists|mid: GameState|
                {
                    &&& same_but_display(mid, *final(self))
                    &&& old(self).text_input ==> exists|key: TextInput| text_applied(*old(self), mid, key)
                    &&& !old(self).text_input ==> exists|input: Input| input_applied(*old(self), mid, input)
                },
            final(self).display.size == old(self).display.size,
            final(self).tiles == old(self).tiles,
            final(self).health == old(self).health,
    {
        if self.hunger == 0 {
            self.quit = true;
            return;
        }
        if self.text_input {
            let key = inputs.get_text_input();
            self.handle_text(key);
        } else {
            let input = inputs.get_input();
            self.handle_input(input);
        }
        let ghost mid = *self;
        self.redraw();
        proof {
            assert(same_but_display(mid, *self));
        }
    }

    /// Takes the typed repeat count (see `repeat_count`) and clears it.
    pub fn number(&mut self) -> (r: u16)
        ensures
            r == repeat_count(old(self).number@),
            final(self).number@ == Seq::<char>::empty(),
            final(self).position == old(self).position,
            final(self).hunger == old(self).hunger,
            final(self).level == old(self).level,
            final(self).tiles == old(self).tiles,
            final(self).display == old(self).display,
            final(self).ui == old(self).ui,
            final(self).name == old(self).name,
            final(self).text_input == old(self).text_input,
            final(self).quit == old(self).quit,
            final(self).health == old(self).health,
    {
        let ghost s = self.number@;
        let ghost start: int = if s.len() > 0 && s[0] == '+' { 1 } else { 0 };
        let ghost d = count_digits(s);
        proof {
            assert(d =~= s.subrange(start, s.len() as int));
        }
        let mut value: u32 = 0;
        let mut valid: bool = true;
        let mut any: bool = false;
        let mut first: bool = true;
        proof {
            broadcast use vstd::string::axiom_spec_iter;
        }
        for c in it: self.number.as_str().chars()
            invariant
                it.seq() == s,
                start == (if s.len() > 0 && s[0] == '+' { 1int } else { 0int }),
                d == s.subrange(start, s.len() as int),
                first == (it.index() == 0),
                it.index() == 0 || it.index() >= start,
                any == (it.index() > start),
                it.index() == 0 ==> value == 0,
                valid && it.index() >= start ==> all_digits(s.subrange(start, it.index() as int))
                    && value == digits_value(s.subrange(start, it.index() as int)) && value <= u16::MAX,
                !valid ==> !(all_digits(d) && digits_value(d) <= u16::MAX),
        {
            let ghost count = it.index() as int;
            if first && c == '+' {
                proof {
                    assert(s[0] == c);
                }
            } else {
                proof {
                    assert(count >= start);
                    let pre = s.subrange(start, count);
                    let next = s.subrange(start, count + 1);
                    assert(next.drop_last() =~= pre);
                    assert(next.last() == c);
                    assert(d.subrange(0, count + 1 - start) =~= next);
                    assert(d[count - start] == c);
                    if all_digits(d) {
                        lemma_digits_prefix_le(d, count + 1 - start);
                    }
                    if count == start {
                        assert(pre =~= Seq::<char>::empty());
                    }
                }
                if valid {
                    if '0' <= c && c <= '9' {
                        let digit: u32 = (c as u32) - ('0' as u32);
                        let v: u32 = value * 10 + digit;
                        if v <= 65535 {
                            value = v;
                        } else {
                            valid = false;
                        }
                    } else {
                        valid = false;
                    }
                }
                any = true;
            }
            first = false;
        }
        let r: u16 = if valid && any {
            value as u16
        } else {
            1
        };
        self.number = String::new();
        r
    }

    /// Moves the player by `delta` as many times as the typed repeat count
    /// says (see `walk`), clearing the count.
    pub fn try_move(&mut self, delta: IVec2)
        ensures
            (final(self).position, final(self).hunger) == walk(
                old(self).position,
                old(self).hunger,
                delta,
                repeat_count(old(self).number@),
                old(self).level.size,
            ),
            final(self).number@ == Seq::<char>::empty(),
            final(self).level == old(self).level,
            final(self).tiles == old(self).tiles,
            final(self).display == old(self).display,
            final(self).ui == old(self).ui,
            final(self).name == old(self).name,
            final(self).text_input == old(self).text_input,
            final(self).quit == old(self).quit,
            final(self).health == old(self).health,
    {
        let steps = self.number();
        let ghost total = steps as nat;
        let mut i: u16 = 0;
        while i < steps
            invariant_except_break
                i <= steps,
                walk(self.position, self.hunger, delta, (steps - i) as nat, self.level.size) == walk(
                    old(self).position,
                    old(self).hunger,
                    delta,
                    total,
                    self.level.size,
                ),
            invariant
                total == steps,
                steps == repeat_count(old(self).number@),
                self.number@ == Seq::<char>::empty(),
                self.level == old(self).level,
                self.tiles == old(self).tiles,
                self.display == old(self).display,
                self.ui == old(self).ui,
                self.name == old(self).name,
                self.text_input == old(self).text_input,
                self.quit == old(self).quit,
                self.health == old(self).health,
            ensures
                (self.position, self.hunger) == walk(
                    old(self).position,
                    old(self).hunger,
                    delta,
                    total,
                    self.level.size,
                ),
            decreases steps - i,
        {
            let new_y: i32 = self.position.y as i32 + delta.y as i32;
            let new_x: i32 = self.position.x as i32 + delta.x as i32;
            if self.hunger == 0 || new_y < 0 || new_y >= self.level.size.y as i32 || new_x < 0 || new_x
                >= self.level.size.x as i32 {
                break;
            }
            self.position = UVec2 { x: new_x as u16, y: new_y as u16 };
            self.hunger = self.hunger - 1;
            i = i + 1;
        }
    }
}

/// The value of a prefix of a digit string is at most the whole's value.
proof fn lemma_digits_prefix_le(s: Seq<char>, n: int)
    requires
        0 <= n <= s.len(),
        all_digits(s),
    ensures
        digits_value(s.subrange(0, n)) <= digits_value(s),
    decreases s.len() - n,
{
    if n < s.len() {
        let next = s.subrange(0, n + 1);
        assert(next.drop_last() =~= s.subrange(0, n));
        assert('0' <= next.last() <= '9');
        lemma_digits_prefix_le(s, n + 1);
    } else {
        assert(s.subrange(0, n) =~= s);
    }
}

} // verus!
