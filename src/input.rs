use vstd::prelude::*;

verus! {

/// A command decoded from a key press.
#[derive(Clone, Copy, Debug, PartialEq, Eq, Structural)]
pub enum Input {
    Up,
    Left,
    Right,
    Down,
    UpLeft,
    UpRight,
    DownLeft,
    DownRight,
    Inventory,
    Idle,
    Quit,
    Number(char),
    MenuPrev,
    MenuNext,
    Select,
    EnterText,
}

/// A key press while text is being typed.
#[derive(Clone, Copy, Debug, PartialEq, Eq, Structural)]
pub enum TextInput {
    Char(char),
    Exit,
    Backspace,
    Idle,
}

/// A source of key presses, implemented by the terminal front end.
pub trait GetInput {
    fn get_input(&self) -> Input;

    fn get_text_input(&self) -> TextInput;
}

} // verus!
