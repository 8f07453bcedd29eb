//! Windows: their geometry and their pixel buffers.

use vstd::prelude::*;

use crate::rect::Rect;

verus! {

/// Background colour of a fresh window body.
pub const WINDOW_BACKGROUND_COLOUR: u32 = 0xffbbbbbb;

/// Colour of the title bar.
pub const WINDOW_TITLE_COLOUR: u32 = 0x232422;

/// Height of the title bar in pixels.
pub const WINDOW_TITLE_HEIGHT: u16 = 20;

/// A window description as userland hands it over: geometry, colour and
/// the address of its name.
#[derive(Clone, Copy, Debug, PartialEq, Eq, Structural)]
pub struct SimpleWindow {
    pub x: u16,
    pub y: u16,
    pub width: u16,
    pub height: u16,
    pub colour: u32,
    pub name: usize,
}

/// A window the manager owns: its identity, geometry and pixel buffer of
/// `width * height` cells, title bar first.
pub struct Window {
    pub title: Vec<u8>,
    pub wid: usize,
    pub x: u16,
    pub y: u16,
    pub width: u16,
    pub height: u16,
    pub colour: u32,
    pub buffer: Vec<u32>,
}

impl Window {
    /// The pixel buffer, row-major.
    pub closed spec fn pixels(&self) -> Seq<u32> {
        self.buffer@
    }

    /// A window whose buffer holds the title bar colour over the bar rows
    /// and the body colour below.
    pub fn new(title: Vec<u8>, x: u16, y: u16, width: u16, height: u16, colour: u32) -> (w: Window)
        requires
            height >= WINDOW_TITLE_HEIGHT,
        ensures
            w.x == x && w.y == y && w.width == width && w.height == height && w.colour == colour,
            w.wid == 0,
            w.title@ == title@,
            w.pixels().len() == width * height,
            forall|i: int|
                0 <= i < width * WINDOW_TITLE_HEIGHT ==> w.pixels()[i] == WINDOW_TITLE_COLOUR,
            forall|i: int|
                width * WINDOW_TITLE_HEIGHT <= i < width * height ==> w.pixels()[i] == colour,
    {
        proof {
            assert(width * WINDOW_TITLE_HEIGHT <= width * height) by (nonlinear_arith)
                requires
                    WINDOW_TITLE_HEIGHT <= height,
                    0 <= width,
            ;
            assert(width * height <= 0xffff * 0xffff) by (nonlinear_arith)
                requires
                    0 <= width <= 0xffff,
                    0 <= height <= 0xffff,
            ;
        }
        let bar = (width as usize) * (WINDOW_TITLE_HEIGHT as usize);
        let total = (width as usize) * (height as usize);
        let mut buffer: Vec<u32> = Vec::new();
        let mut i: usize = 0;
        while i < bar
            invariant
                i <= bar,
                buffer@.len() == i as int,
                forall|k: int| 0 <= k < i as int ==> buffer@[k] == WINDOW_TITLE_COLOUR,
            decreases bar - i,
        {
            buffer.push(WINDOW_TITLE_COLOUR);
            i = i + 1;
        }
        while i < total
            invariant
                bar <= i <= total || i == total,
                bar <= total,
                buffer@.len() == i as int,
                forall|k: int| 0 <= k < bar as int ==> buffer@[k] == WINDOW_TITLE_COLOUR,
                forall|k: int| bar as int <= k < i as int ==> buffer@[k] == colour,
            decreases total - i,
        {
            buffer.push(colour);
            i = i + 1;
        }
        Window { title, wid: 0, x, y, width, height, colour, buffer }
    }

    /// A window built from a userland description and its resolved name.
    pub fn from(simple_window: &SimpleWindow, name: Vec<u8>) -> (w: Window)
        requires
            simple_window.height >= WINDOW_TITLE_HEIGHT,
        ensures
            w.x == simple_window.x && w.y == simple_window.y,
            w.width == simple_window.width && w.height == simple_window.height,
            w.colour == simple_window.colour,
            w.title@ == name@,
            w.pixels().len() == simple_window.width * simple_window.height,
    {
        Window::new(
            name,
            simple_window.x,
            simple_window.y,
            simple_window.width,
            simple_window.height,
            simple_window.colour,
        )
    }

    /// The screen rectangle the window covers.
    pub fn generate_rect(&self) -> (r: Rect)
        requires
            self.y + self.height <= u16::MAX,
            self.x + self.width <= u16::MAX,
        ensures
            r == (Rect {
                top: self.y,
                bottom: (self.y + self.height) as u16,
                left: self.x,
                right: (self.x + self.width) as u16,
            }),
    {
        Rect::new(self.y, self.y + self.height, self.x + self.width, self.x)
    }

    /// Writes one pixel of the window's own buffer.
    pub fn set_pixel(&mut self, index: usize, colour: u32) -> (written: bool)
        ensures
            index < old(self).pixels().len() ==> written && final(self).pixels() == old(
                self,
            ).pixels().update(index as int, colour),
            index >= old(self).pixels().len() ==> !written && final(self).pixels() == old(
                self,
            ).pixels(),
            final(self).width == old(self).width,
            final(self).height == old(self).height,
    {
        if index < self.buffer.len() {
            self.buffer.set(index, colour);
            true
        } else {
            false
        }
    }

    /// Reads one pixel of the window's own buffer.
    pub fn pixel(&self, index: usize) -> (c: Option<u32>)
        ensures
            index < self.pixels().len() ==> c == Some(self.pixels()[index as int]),
            index >= self.pixels().len() ==> c is None,
    {
        if index < self.buffer.len() {
            Some(self.buffer[index])
        } else {
            None
        }
    }
}

} // verus!
