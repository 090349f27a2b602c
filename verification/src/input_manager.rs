//! What a key does.

use vstd::prelude::*;

verus! {

/// The keys that the engine reacts to.
#[derive(Clone, Copy, Debug, PartialEq, Eq, Structural)]
pub enum Key {
    Escape,
    KeyP,
    KeyG,
    KeyW,
    KeyS,
    KeyA,
    KeyD,
    ArrowUp,
    ArrowDown,
    ArrowLeft,
    ArrowRight,
    Other,
}

/// A direction in which the camera moves.
#[derive(Clone, Copy, Debug, PartialEq, Eq, Structural)]
pub enum Direction {
    Up,
    Down,
    Left,
    Right,
}

/// What the host does on a key event.
#[derive(Clone, Copy, Debug, PartialEq, Eq, Structural)]
pub enum Command {
    /// Leave the event loop.
    Exit,
    /// Add a batch of particles at the pointer.
    AddParticles,
    /// Show or hide the grid lines.
    ToggleGridDrawing,
    /// Start (`true`) or stop (`false`) moving the camera.
    MoveCamera(Direction, bool),
    /// Nothing.
    Ignore,
}

/// The command of a key event: `Escape`, `P` and `G` act when pressed,
/// the movement keys and arrows when pressed and when released.
pub open spec fn command_of(code: Key, is_pressed: bool) -> Command {
    match code {
        Key::Escape => if is_pressed {
            Command::Exit
        } else {
            Command::Ignore
        },
        Key::KeyP => if is_pressed {
            Command::AddParticles
        } else {
            Command::Ignore
        },
        Key::KeyG => if is_pressed {
            Command::ToggleGridDrawing
        } else {
            Command::Ignore
        },
        Key::KeyW | Key::ArrowUp => Command::MoveCamera(Direction::Up, is_pressed),
        Key::KeyS | Key::ArrowDown => Command::MoveCamera(Direction::Down, is_pressed),
        Key::KeyA | Key::ArrowLeft => Command::MoveCamera(Direction::Left, is_pressed),
        Key::KeyD | Key::ArrowRight => Command::MoveCamera(Direction::Right, is_pressed),
        Key::Other => Command::Ignore,
    }
}

/// Turns key events into commands.
pub struct InputManager {}

impl InputManager {
    /// A manager of the keyboard's events.
    pub fn new() -> (manager: InputManager) {
        InputManager {  }
    }

    /// The command of a keyboard event.
    pub fn process_keyboard_input(code: Key, is_pressed: bool) -> (command: Command)
        ensures
            command == command_of(code, is_pressed),
    {
        match (code, is_pressed) {
            (Key::Escape, true) => Command::Exit,
            (Key::KeyP, true) => Command::AddParticles,
            (Key::KeyG, true) => Command::ToggleGridDrawing,
            (Key::KeyW, _) | (Key::ArrowUp, _) => Command::MoveCamera(Direction::Up, is_pressed),
            (Key::KeyS, _) | (Key::ArrowDown, _) => Command::MoveCamera(
                Direction::Down,
                is_pressed,
            ),
            (Key::KeyA, _) | (Key::ArrowLeft, _) => Command::MoveCamera(
                Direction::Left,
                is_pressed,
            ),
            (Key::KeyD, _) | (Key::ArrowRight, _) => Command::MoveCamera(
                Direction::Right,
                is_pressed,
            ),
            _ => Command::Ignore,
        }
    }

    /// Whether a keyboard event ends the program: `Escape`, pressed.
    pub fn handle_key(&self, code: Key, is_pressed: bool) -> (exit: bool)
        ensures
            exit == (command_of(code, is_pressed) == Command::Exit),
    {
        match (code, is_pressed) {
            (Key::Escape, true) => true,
            _ => false,
        }
    }
}

} // verus!
