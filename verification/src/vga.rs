//! Model of the character-grid device: a fixed width and height, and the
//! sequence of cell writes it has received. The device accepts a cell
//! coordinate, a character code and a foreground/background attribute pair;
//! a write is infallible. How the device displays a cell is out of scope,
//! so the model records the writes in order.

use vstd::prelude::*;

verus! {

/// A display attribute. The driver only needs a light and a dark shade.
#[derive(Clone, Copy, PartialEq, Eq, Structural, Debug)]
pub enum Color {
    Black,
    White,
}

/// One cell write as the device received it: coordinate, character code,
/// foreground and background attribute.
#[derive(Clone, Copy, PartialEq, Eq, Structural, Debug)]
pub struct CellWrite {
    pub x: usize,
    pub y: usize,
    pub code: u8,
    pub fg: Color,
    pub bg: Color,
}

/// The character-grid device: fixed bounds, and the writes received so far,
/// oldest first.
pub struct Vga {
    pub width: usize,
    pub height: usize,
    pub writes: Vec<CellWrite>,
}

impl Vga {
    /// A fresh device of the given dimensions that has received no writes.
    pub fn new(width: usize, height: usize) -> (v: Vga)
        requires
            1 <= width,
            1 <= height,
        ensures
            v.width == width,
            v.height == height,
            v.writes@ == Seq::<CellWrite>::empty(),
    {
        Vga { width, height, writes: Vec::new() }
    }

    /// The number of columns of the grid.
    pub fn x_max(&self) -> (r: usize)
        ensures
            r == self.width,
    {
        self.width
    }

    /// The number of rows of the grid.
    pub fn y_max(&self) -> (r: usize)
        ensures
            r == self.height,
    {
        self.height
    }

    /// Receive one cell write. The device never fails and never changes its
    /// bounds; the write is recorded after all earlier ones.
    pub fn put(&mut self, pos: (usize, usize), code: u8, fg: Color, bg: Color)
        ensures
            final(self).width == old(self).width,
            final(self).height == old(self).height,
            final(self).writes@ == old(self).writes@.push(
                (CellWrite { x: pos.0, y: pos.1, code, fg, bg }),
            ),
    {
        self.writes.push(CellWrite { x: pos.0, y: pos.1, code, fg, bg });
    }
}

} // verus!
