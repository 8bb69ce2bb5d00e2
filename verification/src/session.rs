//! The decisions of an interactive run: how a key moves the view, what a
//! finished turn puts on screen, and whether a glyph that could not be
//! drawn ends the run. The terminal itself is driven from outside.

use crate::gol::{Board, Mask, Point};
use vstd::prelude::*;

verus! {

/// What a key press asks for.
#[derive(Clone, Copy, Debug, PartialEq, Eq, Structural)]
pub enum Key {
    Left,
    Right,
    Up,
    Down,
    Quit,
    /// Any key without a meaning.
    Other,
}

/// Why a glyph could not be put on screen.
#[derive(Clone, Copy, Debug, PartialEq, Eq, Structural)]
pub enum DrawError {
    /// The position lies outside the screen.
    Outside,
    /// The terminal refused the glyph, with this code.
    Refused(i32),
}

/// Where the view stands and how far the run has come.
#[derive(Clone, Copy, Debug, PartialEq, Eq, Structural)]
pub struct Session {
    /// The board cell in the top-left corner of the screen.
    pub offset: Point,
    /// How many generations have been shown.
    pub turn: u64,
    /// Whether the run goes on.
    pub running: bool,
}

/// How far one key press scrolls on a screen of the given size: a tenth
/// of the longer side, rounded toward zero.
pub open spec fn scroll_step(max_x: int, max_y: int) -> int {
    let longer = if max_x >= max_y {
        max_x
    } else {
        max_y
    };
    if longer >= 0 {
        longer / 10
    } else {
        -((-longer) / 10)
    }
}

/// The session after `key`, scrolling by `step`.
pub open spec fn after_key(s: Session, key: Key, step: int) -> Session {
    match key {
        Key::Left => Session { offset: Point { x: (s.offset.x - step) as i64, y: s.offset.y }, ..s },
        Key::Right => Session {
            offset: Point { x: (s.offset.x + step) as i64, y: s.offset.y },
            ..s
        },
        Key::Up => Session { offset: Point { x: s.offset.x, y: (s.offset.y - step) as i64 }, ..s },
        Key::Down => Session { offset: Point { x: s.offset.x, y: (s.offset.y + step) as i64 }, ..s },
        Key::Quit => Session { running: false, ..s },
        Key::Other => s,
    }
}

/// Whether the scroll that `key` asks for stays within the coordinates.
pub open spec fn can_scroll(s: Session, key: Key, step: int) -> bool {
    match key {
        Key::Left => i64::MIN <= s.offset.x - step <= i64::MAX,
        Key::Right => i64::MIN <= s.offset.x + step <= i64::MAX,
        Key::Up => i64::MIN <= s.offset.y - step <= i64::MAX,
        Key::Down => i64::MIN <= s.offset.y + step <= i64::MAX,
        Key::Quit => true,
        Key::Other => true,
    }
}

/// What becomes of a glyph at `pt` that the terminal answered with `code`:
/// outside the screen it is a fault; a refusal is one too, except in the
/// last cell of the screen, where terminals refuse after drawing.
pub open spec fn draw_outcome(screen: Mask, pt: Point, max_x: int, max_y: int, code: int) -> Result<
    (),
    DrawError,
> {
    if !screen.covers(pt.x as int, pt.y as int) {
        Err(DrawError::Outside)
    } else if code == 0 || (pt.x == max_x - 1 && pt.y == max_y - 1) {
        Ok(())
    } else {
        Err(DrawError::Refused(code as i32))
    }
}

/// The scroll step for a screen of the given size.
pub fn scroll_inc(max_x: i32, max_y: i32) -> (step: i64)
    ensures
        step == scroll_step(max_x as int, max_y as int),
{
    let longer = if max_x >= max_y {
        max_x
    } else {
        max_y
    };
    (longer / 10) as i64
}

/// Whether a glyph at `pt`, which the terminal answered with `code`, lets
/// the run go on.
pub fn placed(screen: &Mask, pt: &Point, max_x: i32, max_y: i32, code: i32) -> (outcome: Result<
    (),
    DrawError,
>)
    ensures
        outcome == draw_outcome(*screen, *pt, max_x as int, max_y as int, code as int),
{
    if !screen.contains(pt) {
        Err(DrawError::Outside)
    } else if code == 0 || (pt.x == max_x as i64 - 1 && pt.y == max_y as i64 - 1) {
        Ok(())
    } else {
        Err(DrawError::Refused(code))
    }
}

impl Session {
    /// A run at its start: the view at the origin, no turn shown.
    pub fn new() -> (s: Session)
        ensures
            s == (Session { offset: Point { x: 0, y: 0 }, turn: 0, running: true }),
    {
        Session { offset: Point { x: 0, y: 0 }, turn: 0, running: true }
    }

    /// Takes a key press: the arrows scroll by `step`, quitting stops the
    /// run, any other key changes nothing.
    pub fn key_press(&mut self, key: Key, step: i64)
        requires
            can_scroll(*old(self), key, step as int),
        ensures
            *final(self) == after_key(*old(self), key, step as int),
    {
        match key {
            Key::Left => {
                self.offset.x = self.offset.x - step;
            },
            Key::Right => {
                self.offset.x = self.offset.x + step;
            },
            Key::Up => {
                self.offset.y = self.offset.y - step;
            },
            Key::Down => {
                self.offset.y = self.offset.y + step;
            },
            Key::Quit => {
                self.running = false;
            },
            Key::Other => {},
        }
    }

    /// Takes a finished turn: counts it, wraps the view onto the board, and
    /// gives the viewport to draw, which starts at the wrapped offset and is
    /// as large as the screen.
    pub fn turn_end(&mut self, board: &Board, max_x: u32, max_y: u32) -> (viewport: Mask)
        requires
            board.wf(),
            board@.height() > 0,
            old(self).turn < u64::MAX,
        ensures
            final(self).turn == old(self).turn + 1,
            final(self).running == old(self).running,
            final(self).offset.x == (old(self).offset.x as int) % (board@.width as int),
            final(self).offset.y == (old(self).offset.y as int) % (board@.height() as int),
            viewport.x == final(self).offset.x,
            viewport.y == final(self).offset.y,
            viewport.w == max_x,
            viewport.h == max_y,
    {
        self.turn = self.turn + 1;
        let w = board.width();
        let h = board.height();
        let mut offset = self.offset;
        offset.remap(w as i64, h as i64);
        self.offset = offset;
        Mask { x: offset.x as u32, y: offset.y as u32, w: max_x, h: max_y }
    }
}

} // verus!
