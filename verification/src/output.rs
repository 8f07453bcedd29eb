//! Text output: the sink trait every console implements, and the VGA text
//! screen with its buffer modelled explicitly.

use vstd::prelude::*;

verus! {

/// Width of the VGA text screen in characters.
pub const VGA_WIDTH: usize = 80;

/// Height of the VGA text screen in rows.
pub const VGA_HEIGHT: usize = 25;

/// A sink characters can be written to.
pub trait Output {
    /// Writes one character.
    fn put_char(&mut self, character: u8);

    /// Moves to the start of the next line.
    fn new_line(&mut self);

    /// Clears the whole sink.
    fn clear(&mut self);
}

/// Foreground and background colour of one cell, packed in a byte.
#[derive(Clone, Copy, Debug, PartialEq, Eq, Structural)]
pub struct ColourCode(pub u8);

impl ColourCode {
    /// Packs a background and foreground colour pair.
    pub fn new(colour_pair: (u8, u8)) -> (c: ColourCode)
        ensures
            c.0 == (((colour_pair.0 & 0xf) * 16) as u8) | (colour_pair.1 & 0xf),
            c.0 < 256,
    {
        let bg = colour_pair.0;
        let fg = colour_pair.1;
        proof {
            assert((bg & 0xf) < 16u8) by (bit_vector);
            assert((fg & 0xf) < 16u8) by (bit_vector);
        }
        ColourCode(((bg & 0xf) * 16) | (fg & 0xf))
    }

    /// A full cell value: colour in the high byte, character in the low.
    pub fn generate_vga_entry(&self, character: u8) -> (e: u16)
        ensures
            e == (self.0 as u16) * 256 + character as u16,
    {
        (self.0 as u16) * 256 + (character as u16)
    }
}

/// The VGA text screen: cursor position, cell buffer and current colour.
pub struct Screen {
    current_row: usize,
    current_col: usize,
    buffer: Vec<u16>,
    colour_pair: ColourCode,
}

impl Screen {
    /// The cell contents, row-major.
    pub closed spec fn cells(&self) -> Seq<u16> {
        self.buffer@
    }

    /// Cursor position as (row, column).
    pub closed spec fn cursor(&self) -> (int, int) {
        (self.current_row as int, self.current_col as int)
    }

    /// The colour byte new cells are written with.
    pub closed spec fn colour(&self) -> u8 {
        self.colour_pair.0
    }

    /// Screen invariant: a full buffer and a cursor inside it.
    pub open spec fn wf(&self) -> bool {
        &&& self.cells().len() == VGA_WIDTH * VGA_HEIGHT
        &&& 0 <= self.cursor().1 < VGA_WIDTH
        &&& 0 <= self.cursor().0
    }

    /// A blank screen writing black-on-white.
    pub fn new() -> (s: Screen)
        ensures
            s.wf(),
            s.cursor() == (0int, 0int),
            forall|i: int| 0 <= i < s.cells().len() ==> s.cells()[i] == 0u16,
    {
        let mut buffer: Vec<u16> = Vec::new();
        let mut i: usize = 0;
        while i < VGA_WIDTH * VGA_HEIGHT
            invariant
                i <= VGA_WIDTH * VGA_HEIGHT,
                buffer@.len() == i as int,
                forall|k: int| 0 <= k < i as int ==> buffer@[k] == 0u16,
            decreases VGA_WIDTH * VGA_HEIGHT - i,
        {
            buffer.push(0);
            i = i + 1;
        }
        Screen { current_row: 0, current_col: 0, buffer, colour_pair: ColourCode::new((0, 15)) }
    }

    /// The cell at `index`, row-major.
    pub fn cell_at(&self, index: usize) -> (c: Option<u16>)
        ensures
            index < self.cells().len() ==> c == Some(self.cells()[index as int]),
            index >= self.cells().len() ==> c is None,
    {
        if index < self.buffer.len() {
            Some(self.buffer[index])
        } else {
            None
        }
    }

    /// Writes one character at the cursor: on-screen positions get the
    /// colour-packed cell, the cursor advances and wraps at the row's
    /// end; a newline only moves the cursor.
    pub fn write_char(&mut self, character: u8)
        ensures
            final(self).colour() == old(self).colour(),
            final(self).cells().len() == old(self).cells().len(),
            character == 10 ==> final(self).cells() == old(self).cells() && final(self).cursor()
                == advanced_line(old(self).cursor().0),
            character != 10 ==> {
                let r = old(self).cursor().0;
                let c = old(self).cursor().1;
                let visible = r < VGA_HEIGHT && c < VGA_WIDTH && r * VGA_WIDTH + c
                    < old(self).cells().len();
                &&& visible ==> final(self).cells() == old(self).cells().update(
                    r * VGA_WIDTH + c,
                    ((old(self).colour() as u16) * 256 + character) as u16,
                )
                &&& !visible ==> final(self).cells() == old(self).cells()
                &&& (c >= VGA_WIDTH - 1 ==> final(self).cursor() == advanced_line(r))
                &&& (c < VGA_WIDTH - 1 ==> final(self).cursor() == (r, c + 1))
            },
    {
        if character == 10 {
            self.advance_line();
        } else {
            if self.current_row < VGA_HEIGHT && self.current_col < VGA_WIDTH {
                let entry = self.colour_pair.generate_vga_entry(character);
                proof {
                    let r = self.current_row as int;
                    let c = self.current_col as int;
                    assert(r * 80 + c < 2000 && r * 80 >= 0) by (nonlinear_arith)
                        requires
                            0 <= r < 25,
                            0 <= c < 80,
                    ;
                    assert(self.current_row as int * (VGA_WIDTH as int) == r * 80);
                }
                let idx = self.current_row * VGA_WIDTH + self.current_col;
                if idx < self.buffer.len() {
                    self.buffer.set(idx, entry);
                }
            }
            if self.current_col >= VGA_WIDTH - 1 {
                self.advance_line();
            } else {
                self.current_col = self.current_col + 1;
            }
        }
    }

    /// Moves the cursor to the start of the next row, saturating at the
    /// machine limit.
    pub fn advance_line(&mut self)
        ensures
            final(self).colour() == old(self).colour(),
            final(self).cells() == old(self).cells(),
            final(self).cursor() == advanced_line(old(self).cursor().0),
    {
        self.current_col = 0;
        if self.current_row < usize::MAX {
            self.current_row = self.current_row + 1;
        }
    }

    /// Blanks every cell and homes the cursor.
    pub fn clear_cells(&mut self)
        ensures
            final(self).colour() == old(self).colour(),
            final(self).cells().len() == old(self).cells().len(),
            forall|i: int| 0 <= i < final(self).cells().len() ==> final(self).cells()[i] == 0u16,
            final(self).cursor() == (0int, 0int),
    {
        let mut i: usize = 0;
        let n = self.buffer.len();
        while i < n
            invariant
                i <= n,
                n == self.buffer@.len(),
                self.colour() == old(self).colour(),
                forall|k: int| 0 <= k < i as int ==> self.buffer@[k] == 0u16,
            decreases n - i,
        {
            self.buffer.set(i, 0);
            i = i + 1;
        }
        self.current_col = 0;
        self.current_row = 0;
    }
}

/// Where a line break puts the cursor: column zero of the next row, the
/// row saturating at the machine limit.
pub open spec fn advanced_line(row: int) -> (int, int) {
    (if row < usize::MAX { row + 1 } else { row }, 0int)
}

impl Output for Screen {
    /// Writes one character through [`Screen::write_char`].
    fn put_char(&mut self, character: u8) {
        self.write_char(character);
    }

    /// Breaks the line through [`Screen::advance_line`].
    fn new_line(&mut self) {
        self.advance_line();
    }

    /// Clears the screen through [`Screen::clear_cells`].
    fn clear(&mut self) {
        self.clear_cells();
    }
}

} // verus!
