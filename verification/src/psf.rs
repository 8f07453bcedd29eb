//! PC Screen Font headers: the metadata in front of the glyph bitmaps.

use vstd::prelude::*;

verus! {

/// Magic number opening every font file of this format.
pub const PSF_MAGIC: u32 = 0x864ab572;

/// Glyph height in pixels.
pub const FONT_HEIGHT: u16 = 16;

/// Glyph width in pixels.
pub const FONT_WIDTH: u16 = 8;

/// The font file's header.
#[derive(Clone, Copy, Debug, PartialEq, Eq, Structural)]
pub struct PsfFont {
    pub magic: u32,
    pub version: u32,
    pub header_size: u32,
    pub flags: u32,
    pub glymph_num: u32,
    pub bytes_per_glyph: u32,
    pub height: u32,
    pub width: u32,
}

impl PsfFont {
    /// Whether the header is one this renderer accepts: right magic,
    /// version zero, 16-byte glyphs of 8 by 16 pixels.
    pub fn verify(&self) -> (r: bool)
        ensures
            r == (self.magic == PSF_MAGIC && self.version == 0 && self.bytes_per_glyph == 16
                && self.height == FONT_HEIGHT as u32 && self.width == FONT_WIDTH as u32),
    {
        self.magic == PSF_MAGIC && self.version == 0 && self.bytes_per_glyph == 16 && self.height
            == FONT_HEIGHT as u32 && self.width == FONT_WIDTH as u32
    }

    /// Byte offset of the glyph for `character` within the font file.
    pub fn glyph_offset(&self, character: u8) -> (o: u32)
        requires
            self.header_size + self.bytes_per_glyph * 256 <= u32::MAX,
        ensures
            o == self.header_size + self.bytes_per_glyph * character,
    {
        proof {
            assert(self.bytes_per_glyph * character <= self.bytes_per_glyph * 256)
                by (nonlinear_arith)
                requires
                    0 <= character < 256,
            ;
        }
        self.header_size + self.bytes_per_glyph * (character as u32)
    }
}

/// Where a font's data lives: its header location and the address of the
/// glyph bitmaps.
#[derive(Clone, Copy, Debug, PartialEq, Eq, Structural)]
pub struct Font {
    pub metadata: PsfFont,
    pub start_addr: u32,
}

impl Font {
    /// A font from its parsed header and data address.
    pub fn new(metadata: PsfFont, start_addr: u32) -> (f: Font)
        ensures
            f.metadata == metadata,
            f.start_addr == start_addr,
    {
        Font { metadata, start_addr }
    }

    /// Re-points the font at another header and data address.
    pub fn init(&mut self, metadata: PsfFont, start_addr: u32)
        ensures
            final(self).metadata == metadata,
            final(self).start_addr == start_addr,
    {
        self.metadata = metadata;
        self.start_addr = start_addr;
    }
}

} // verus!
