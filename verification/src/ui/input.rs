//! Input: key and mouse events, and the commands that they stand for.

use vstd::prelude::*;
use crate::error::CoreWarError;

verus! {

/// An event of the terminal.
#[derive(Debug, Clone, Copy, PartialEq, Eq, Structural)]
pub enum InputEvent {
    /// A key was pressed.
    Key(KeyEvent),
    /// The mouse was used.
    Mouse(MouseEvent),
    /// The terminal was resized to the given width and height.
    Resize(u16, u16),
    /// The terminal was closed.
    Quit,
}

/// A key press.
#[derive(Debug, Clone, Copy, PartialEq, Eq, Structural)]
pub struct KeyEvent {
    /// The key.
    pub code: KeyCode,
    /// The modifier keys held with it.
    pub modifiers: KeyModifiers,
}

/// A key.
#[derive(Debug, Clone, Copy, PartialEq, Eq, Structural)]
pub enum KeyCode {
    Char(char),
    Space,
    Enter,
    Esc,
    F(u8),
    Up,
    Down,
    Left,
    Right,
    PageUp,
    PageDown,
    Home,
    End,
    Insert,
    Delete,
    Backspace,
    Tab,
}

/// The modifier keys.
#[derive(Debug, Clone, Copy, PartialEq, Eq, Structural)]
pub struct KeyModifiers {
    pub ctrl: bool,
    pub alt: bool,
    pub shift: bool,
}

impl KeyModifiers {
    /// No modifier.
    pub fn new() -> (m: Self)
        ensures
            m == (KeyModifiers { ctrl: false, alt: false, shift: false }),
    {
        KeyModifiers { ctrl: false, alt: false, shift: false }
    }

    /// Control alone.
    pub fn ctrl() -> (m: Self)
        ensures
            m == (KeyModifiers { ctrl: true, alt: false, shift: false }),
    {
        KeyModifiers { ctrl: true, alt: false, shift: false }
    }

    /// Alt alone.
    pub fn alt() -> (m: Self)
        ensures
            m == (KeyModifiers { ctrl: false, alt: true, shift: false }),
    {
        KeyModifiers { ctrl: false, alt: true, shift: false }
    }

    /// Shift alone.
    pub fn shift() -> (m: Self)
        ensures
            m == (KeyModifiers { ctrl: false, alt: false, shift: true }),
    {
        KeyModifiers { ctrl: false, alt: false, shift: true }
    }
}

impl Default for KeyModifiers {
    fn default() -> (m: Self)
        ensures
            m == (KeyModifiers { ctrl: false, alt: false, shift: false }),
    {
        KeyModifiers::new()
    }
}

/// A use of the mouse, with the column and the row of the pointer.
#[derive(Debug, Clone, Copy, PartialEq, Eq, Structural)]
pub enum MouseEvent {
    Down(MouseButton, u16, u16),
    Up(MouseButton, u16, u16),
    Move(u16, u16),
    Scroll(ScrollDirection, u16, u16),
}

/// A mouse button.
#[derive(Debug, Clone, Copy, PartialEq, Eq, Structural)]
pub enum MouseButton {
    Left,
    Right,
    Middle,
}

/// The direction of a scroll.
#[derive(Debug, Clone, Copy, PartialEq, Eq, Structural)]
pub enum ScrollDirection {
    Up,
    Down,
}

/// What the user asks of the application.
#[derive(Debug, Clone, Copy, PartialEq, Eq, Structural)]
pub enum Command {
    Quit,
    TogglePause,
    IncreaseSpeed,
    DecreaseSpeed,
    ToggleDebug,
    ToggleHelp,
    CycleColorMode,
    ToggleAddresses,
    Navigate(Direction),
    Step,
    SetViewMode(ViewMode),
    /// Select the cell at the given column and row.
    SelectMemory(usize, usize),
}

/// A direction of navigation.
#[derive(Debug, Clone, Copy, PartialEq, Eq, Structural)]
pub enum Direction {
    Up,
    Down,
    Left,
    Right,
}

/// The views that a key can select.
#[derive(Debug, Clone, Copy, PartialEq, Eq, Structural)]
pub enum ViewMode {
    Normal,
    ProcessDetail,
    MemoryDump,
}

/// The command that a key stands for, whatever the modifiers.
pub open spec fn key_command(code: KeyCode) -> Option<Command> {
    match code {
        KeyCode::Char(c) => if c == 'q' {
            Some(Command::Quit)
        } else if c == '=' || c == '+' {
            Some(Command::IncreaseSpeed)
        } else if c == '-' {
            Some(Command::DecreaseSpeed)
        } else if c == 'd' {
            Some(Command::ToggleDebug)
        } else if c == 'h' {
            Some(Command::ToggleHelp)
        } else if c == 'c' {
            Some(Command::CycleColorMode)
        } else if c == 'a' {
            Some(Command::ToggleAddresses)
        } else if c == 's' {
            Some(Command::Step)
        } else if c == '1' {
            Some(Command::SetViewMode(ViewMode::Normal))
        } else if c == '2' {
            Some(Command::SetViewMode(ViewMode::ProcessDetail))
        } else if c == '3' {
            Some(Command::SetViewMode(ViewMode::MemoryDump))
        } else {
            None
        },
        KeyCode::Esc => Some(Command::Quit),
        KeyCode::Space => Some(Command::TogglePause),
        KeyCode::Up => Some(Command::Navigate(Direction::Up)),
        KeyCode::Down => Some(Command::Navigate(Direction::Down)),
        KeyCode::Left => Some(Command::Navigate(Direction::Left)),
        KeyCode::Right => Some(Command::Navigate(Direction::Right)),
        KeyCode::Enter => Some(Command::Step),
        _ => None,
    }
}

/// The command that a use of the mouse stands for: a click of the left
/// button selects a cell, the wheel changes the speed.
pub open spec fn mouse_command(event: MouseEvent) -> Option<Command> {
    match event {
        MouseEvent::Down(MouseButton::Left, x, y) => Some(
            Command::SelectMemory(x as usize, y as usize),
        ),
        MouseEvent::Scroll(ScrollDirection::Up, _, _) => Some(Command::IncreaseSpeed),
        MouseEvent::Scroll(ScrollDirection::Down, _, _) => Some(Command::DecreaseSpeed),
        _ => None,
    }
}

/// Turns events into commands.
#[derive(Debug, Clone, Copy, PartialEq, Eq, Structural)]
pub struct InputHandler {
    /// Whether the mouse is listened to.
    pub mouse_enabled: bool,
}

impl InputHandler {
    /// A handler that listens to the mouse.
    pub fn new() -> (h: Self)
        ensures
            h.mouse_enabled,
    {
        InputHandler { mouse_enabled: true }
    }

    /// The next event, if one is waiting. Without a terminal none ever is.
    pub fn poll_event(&mut self) -> (r: Result<Option<InputEvent>, CoreWarError>)
        ensures
            r == Ok::<Option<InputEvent>, CoreWarError>(None),
            *final(self) == *old(self),
    {
        Ok(None)
    }

    /// The next event. Without a terminal it is the key that quits.
    pub fn read_event(&mut self) -> (r: Result<InputEvent, CoreWarError>)
        ensures
            r == Ok::<InputEvent, CoreWarError>(
                InputEvent::Key(
                    KeyEvent {
                        code: KeyCode::Char('q'),
                        modifiers: KeyModifiers { ctrl: false, alt: false, shift: false },
                    },
                ),
            ),
            *final(self) == *old(self),
    {
        Ok(InputEvent::Key(KeyEvent { code: KeyCode::Char('q'), modifiers: KeyModifiers::new() }))
    }

    /// Says whether the mouse is listened to.
    pub fn set_mouse_enabled(&mut self, enabled: bool)
        ensures
            final(self).mouse_enabled == enabled,
    {
        self.mouse_enabled = enabled;
    }

    /// The command that a key press stands for, if it stands for one.
    pub fn parse_key_command(&self, key_event: &KeyEvent) -> (c: Option<Command>)
        ensures
            c == key_command(key_event.code),
    {
        match key_event.code {
            KeyCode::Char(c) => {
                if c == 'q' {
                    Some(Command::Quit)
                } else if c == '=' || c == '+' {
                    Some(Command::IncreaseSpeed)
                } else if c == '-' {
                    Some(Command::DecreaseSpeed)
                } else if c == 'd' {
                    Some(Command::ToggleDebug)
                } else if c == 'h' {
                    Some(Command::ToggleHelp)
                } else if c == 'c' {
                    Some(Command::CycleColorMode)
                } else if c == 'a' {
                    Some(Command::ToggleAddresses)
                } else if c == 's' {
                    Some(Command::Step)
                } else if c == '1' {
                    Some(Command::SetViewMode(ViewMode::Normal))
                } else if c == '2' {
                    Some(Command::SetViewMode(ViewMode::ProcessDetail))
                } else if c == '3' {
                    Some(Command::SetViewMode(ViewMode::MemoryDump))
                } else {
                    None
                }
            },
            KeyCode::Esc => Some(Command::Quit),
            KeyCode::Space => Some(Command::TogglePause),
            KeyCode::Up => Some(Command::Navigate(Direction::Up)),
            KeyCode::Down => Some(Command::Navigate(Direction::Down)),
            KeyCode::Left => Some(Command::Navigate(Direction::Left)),
            KeyCode::Right => Some(Command::Navigate(Direction::Right)),
            KeyCode::Enter => Some(Command::Step),
            _ => None,
        }
    }

    /// The command that a use of the mouse stands for, if the mouse is
    /// listened to and the use stands for one.
    pub fn parse_mouse_command(&self, mouse_event: &MouseEvent) -> (c: Option<Command>)
        ensures
            c == if self.mouse_enabled {
                mouse_command(*mouse_event)
            } else {
                None
            },
    {
        if !self.mouse_enabled {
            return None;
        }
        match mouse_event {
            MouseEvent::Down(MouseButton::Left, x, y) => Some(
                Command::SelectMemory(*x as usize, *y as usize),
            ),
            MouseEvent::Scroll(ScrollDirection::Up, _, _) => Some(Command::IncreaseSpeed),
            MouseEvent::Scroll(ScrollDirection::Down, _, _) => Some(Command::DecreaseSpeed),
            _ => None,
        }
    }
}

impl Default for InputHandler {
    fn default() -> (h: Self)
        ensures
            h.mouse_enabled,
    {
        InputHandler::new()
    }
}

} // verus!
