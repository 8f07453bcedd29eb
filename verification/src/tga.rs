//! Header of an uncompressed top-left TGA image, with the checks the
//! kernel applies before displaying one.

use vstd::prelude::*;

verus! {

/// The fixed-layout file header: magic and color-map fields must be zero,
/// the encoding must be 2 (uncompressed true color).
#[derive(Clone, Copy, Debug, PartialEq, Eq, Structural)]
pub struct TgaHeader {
    pub magic1: u8,
    pub colormap: u8,
    pub encoding: u8,
    pub cmaporig: u16,
    pub cmaplen: u16,
    pub cmapent: u8,
    pub x: u16,
    pub y: u16,
    pub h: u16,
    pub w: u16,
    pub bpp: u8,
    pub pixeltype: u8,
}

impl TgaHeader {
    /// Whether the header describes an image this kernel can display:
    /// uncompressed, no color map, 24 or 32 bits per pixel.
    pub fn is_supported(&self) -> (r: bool)
        ensures
            r == (self.encoding == 2 && self.magic1 == 0 && self.colormap == 0 && (self.bpp == 24
                || self.bpp == 32)),
    {
        self.encoding == 2 && self.magic1 == 0 && self.colormap == 0 && (self.bpp == 24 || self.bpp
            == 32)
    }
}

} // verus!
