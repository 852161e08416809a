use vstd::prelude::*;

use crate::grid::Grid;
use crate::reach::abs;

verus! {

/// A colour as red, green and blue intensities.
#[derive(Clone, Copy, Debug, PartialEq, Eq, Structural)]
pub struct Color {
    pub r: u8,
    pub g: u8,
    pub b: u8,
}

/// Anything that stands on the map: the player, and later monsters or items.
#[derive(Clone, Copy, Debug, PartialEq, Eq, Structural)]
pub struct Object {
    pub x: i32,
    pub y: i32,
    pub char: char,
    pub color: Color,
}

/// The object after trying to move by `(dx, dy)`: it moves when the destination
/// does not block movement, and stays where it is otherwise.
pub open spec fn moved(o: Object, dx: int, dy: int, map: Grid) -> Object {
    if !map.at(o.x + dx, o.y + dy).blocked {
        Object { x: (o.x + dx) as i32, y: (o.y + dy) as i32, ..o }
    } else {
        o
    }
}

impl Object {
    pub fn new(x: i32, y: i32, char: char, color: Color) -> (o: Object)
        ensures
            o == (Object { x, y, char, color }),
    {
        Object { x, y, char, color }
    }

    /// Moves by the given amount if the destination isn't blocked; a move into a
    /// wall leaves the object where it was.
    pub fn move_by(&mut self, dx: i32, dy: i32, map: &Grid)
        requires
            map.wf(),
            map.in_bounds(old(self).x + dx, old(self).y + dy),
        ensures
            *final(self) == moved(*old(self), dx as int, dy as int, *map),
    {
        let nx = self.x + dx;
        let ny = self.y + dy;
        if !map.tile(nx, ny).blocked {
            self.x = nx;
            self.y = ny;
        }
    }
}

/// An object on a passable cell that tries a single step stays where it was or
/// reaches the destination, and in both cases stands on a passable cell.
pub proof fn lemma_move_keeps_passable(o: Object, dx: int, dy: int, map: Grid)
    requires
        map.wf(),
        map.passable(o.x as int, o.y as int),
        abs(dx) + abs(dy) <= 1,
        map.in_bounds(o.x + dx, o.y + dy),
    ensures
        ({
            let m = moved(o, dx, dy, map);
            &&& (m.x == o.x && m.y == o.y) || (m.x == o.x + dx && m.y == o.y + dy)
            &&& map.passable(m.x as int, m.y as int)
            &&& m.char == o.char && m.color == o.color
        }),
{
}

/// What one turn of input asks for.
#[derive(Clone, Copy, Debug, PartialEq, Eq, Structural)]
pub enum Command {
    MoveUp,
    MoveDown,
    MoveLeft,
    MoveRight,
    ToggleFullscreen,
    Exit,
    Nothing,
}

impl Command {
    /// The step a move command asks for; `(0, 0)` for the others.
    pub open spec fn offset(self) -> (int, int) {
        match self {
            Command::MoveUp => (0, -1),
            Command::MoveDown => (0, 1),
            Command::MoveLeft => (-1, 0),
            Command::MoveRight => (1, 0),
            _ => (0, 0),
        }
    }

    pub open spec fn is_move(self) -> bool {
        match self {
            Command::MoveUp | Command::MoveDown | Command::MoveLeft | Command::MoveRight => true,
            _ => false,
        }
    }
}

/// Applies one command to the player. A move command tries the step with
/// `move_by`; the others leave the player in place. Returns whether the command
/// asks to leave the game. Toggling full screen is for the caller to do.
pub fn handle_command(player: &mut Object, command: Command, map: &Grid) -> (exit: bool)
    requires
        map.wf(),
        command.is_move() ==> map.in_bounds(
            old(player).x + command.offset().0,
            old(player).y + command.offset().1,
        ),
    ensures
        exit == (command == Command::Exit),
        command.is_move() ==> *final(player) == moved(
            *old(player),
            command.offset().0,
            command.offset().1,
            *map,
        ),
        !command.is_move() ==> *final(player) == *old(player),
{
    match command {
        Command::MoveUp => {
            player.move_by(0, -1, map);
            false
        },
        Command::MoveDown => {
            player.move_by(0, 1, map);
            false
        },
        Command::MoveLeft => {
            player.move_by(-1, 0, map);
            false
        },
        Command::MoveRight => {
            player.move_by(1, 0, map);
            false
        },
        Command::Exit => true,
        _ => false,
    }
}

/// The background of a cell: dark outside the field of view, lit inside it, with
/// one shade for walls and one for floor.
pub open spec fn spec_tile_color(visible: bool, wall: bool) -> Color {
    match (visible, wall) {
        (false, true) => Color { r: 0, g: 0, b: 100 },
        (false, false) => Color { r: 50, g: 50, b: 150 },
        (true, true) => Color { r: 130, g: 110, b: 50 },
        (true, false) => Color { r: 200, g: 180, b: 50 },
    }
}

pub fn tile_color(visible: bool, wall: bool) -> (c: Color)
    ensures
        c == spec_tile_color(visible, wall),
{
    if !visible {
        if wall {
            Color { r: 0, g: 0, b: 100 }
        } else {
            Color { r: 50, g: 50, b: 150 }
        }
    } else if wall {
        Color { r: 130, g: 110, b: 50 }
    } else {
        Color { r: 200, g: 180, b: 50 }
    }
}

} // verus!
