//! The framebuffer's pixel layout and the text cursor of the window console.
use vstd::prelude::*;

verus! {

/// The layout of a linear framebuffer.
#[derive(Debug, Clone, Copy)]
pub struct FrameBufferInfo {
    pub width: u32,
    pub height: u32,
    pub bits_per_pixel: u8,
    /// Bytes per row.
    pub pitch: u32,
    pub r_shift: u8,
    pub g_shift: u8,
    pub b_shift: u8,
}

impl FrameBufferInfo {
    /// The pixel value of the colour `r`, `g`, `b`: each component shifted to its place.
    pub fn compose_color(&self, r: u8, g: u8, b: u8) -> (res: u32)
        requires
            self.r_shift < 32,
            self.g_shift < 32,
            self.b_shift < 32,
        ensures
            res == ((r as u32) << (self.r_shift as u32)) | ((g as u32) << (self.g_shift as u32)) | ((b as u32) << (self.b_shift
                as u32)),
    {
        ((r as u32) << (self.r_shift as u32)) | ((g as u32) << (self.g_shift as u32)) | ((b as u32) << (self.b_shift as u32))
    }

    /// The byte offset of pixel `x`, `y` in the framebuffer; `None` outside the screen.
    pub fn pixel_offset(&self, x: u32, y: u32) -> (r: Option<u32>)
        requires
            y < self.height ==> y * self.pitch + (self.width - 1) * (self.bits_per_pixel / 8) <= u32::MAX,
        ensures
            (x >= self.width || y >= self.height) ==> r is None,
            (x < self.width && y < self.height) ==> r == Some((y * self.pitch + x * (self.bits_per_pixel / 8)) as u32),
    {
        if x >= self.width || y >= self.height {
            return None;
        }
        let bytes_per_pixel = self.bits_per_pixel as u32 / 8;
        proof {
            assert(x * bytes_per_pixel <= (self.width - 1) * bytes_per_pixel) by (nonlinear_arith)
                requires x <= self.width - 1;
            assert(y * self.pitch <= u32::MAX) by (nonlinear_arith)
                requires y * self.pitch + (self.width - 1) * (self.bits_per_pixel / 8) <= u32::MAX,
                    (self.width - 1) * (self.bits_per_pixel / 8) >= 0;
        }
        Some((y * self.pitch) + (x * bytes_per_pixel))
    }
}

/// The four bytes of `c`, least significant first.
pub open spec fn le32(c: u32) -> Seq<u8> {
    seq![(c % 0x100) as u8, ((c / 0x100) % 0x100) as u8, ((c / 0x1_0000) % 0x100) as u8, (c / 0x100_0000) as u8]
}

/// The byte offset of pixel `x`, `y`.
pub open spec fn pixel_index(info: FrameBufferInfo, x: u32, y: u32) -> int {
    y * info.pitch + x * (info.bits_per_pixel / 8)
}

/// The pixel value of the colour `r`, `g`, `b` in the layout `info`.
pub open spec fn spec_color(info: FrameBufferInfo, r: u8, g: u8, b: u8) -> u32 {
    ((r as u32) << (info.r_shift as u32)) | ((g as u32) << (info.g_shift as u32)) | ((b as u32) << (info.b_shift as u32))
}

/// The number of bytes from the start of a pixel that writing it touches: the whole
/// 32-bit pixel, or up to the byte of the component placed furthest in.
pub open spec fn pixel_span(info: FrameBufferInfo) -> int {
    if info.bits_per_pixel == 32 {
        4
    } else {
        let r = info.r_shift / 8;
        let g = info.g_shift / 8;
        let b = info.b_shift / 8;
        1 + if r >= g && r >= b {
            r as int
        } else if g >= b {
            g as int
        } else {
            b as int
        }
    }
}

/// The framebuffer bytes `fb` with the pixel at `off` set to `r`, `g`, `b`: a 32-bit pixel
/// value is stored whole, least significant byte first; at other depths each component is
/// stored in the byte its shift selects, red first, then green, then blue.
pub open spec fn with_pixel(fb: Seq<u8>, info: FrameBufferInfo, off: int, r: u8, g: u8, b: u8) -> Seq<u8> {
    if info.bits_per_pixel == 32 {
        let c = le32(spec_color(info, r, g, b));
        fb.update(off, c[0]).update(off + 1, c[1]).update(off + 2, c[2]).update(off + 3, c[3])
    } else {
        fb.update(off + info.r_shift / 8, r).update(off + info.g_shift / 8, g).update(off + info.b_shift / 8, b)
    }
}

/// The text console drawn on the framebuffer: where the next character goes and in which
/// colours.
#[derive(Debug, Clone, Copy)]
pub struct WindowConsole {
    pub info: FrameBufferInfo,
    pub font_width: u32,
    pub font_height: u32,
    pub x: u32,
    pub y: u32,
    pub foreground: u32,
    pub background: u32,
}

impl WindowConsole {
    /// A console at the top left corner, white on black.
    pub fn new(info: FrameBufferInfo, font_width: u32, font_height: u32) -> (r: WindowConsole)
        ensures
            r.info == info,
            r.font_width == font_width,
            r.font_height == font_height,
            r.x == 0 && r.y == 0,
            r.foreground == 0xFFFFFF && r.background == 0,
    {
        WindowConsole { info, font_width, font_height, x: 0, y: 0, foreground: 0xFFFFFF, background: 0x000000 }
    }

    /// Sets the colours of the text that follows.
    pub fn change_colors(&mut self, foreground: u32, background: u32)
        ensures
            final(self).foreground == foreground,
            final(self).background == background,
            final(self).x == old(self).x && final(self).y == old(self).y,
            final(self).info == old(self).info,
            final(self).font_width == old(self).font_width && final(self).font_height == old(self).font_height,
    {
        self.foreground = foreground;
        self.background = background;
    }

    /// Places a character: returns where its glyph is drawn and moves the cursor one glyph
    /// to the right, to the start of the next row when it reaches the right edge.
    pub fn write_char(&mut self, c: char) -> (r: (u32, u32))
        requires
            old(self).x + old(self).font_width <= u32::MAX,
            old(self).y + old(self).font_height <= u32::MAX,
        ensures
            r == (old(self).x, old(self).y),
            old(self).x + old(self).font_width >= old(self).info.width ==> final(self).x == 0
                && final(self).y == old(self).y + old(self).font_height,
            old(self).x + old(self).font_width < old(self).info.width ==> final(self).x == old(self).x
                + old(self).font_width && final(self).y == old(self).y,
            final(self).foreground == old(self).foreground && final(self).background == old(self).background,
            final(self).info == old(self).info,
            final(self).font_width == old(self).font_width && final(self).font_height == old(self).font_height,
    {
        let at = (self.x, self.y);
        self.x = self.x + self.font_width;
        if self.x >= self.info.width {
            self.x = 0;
            self.y = self.y + self.font_height;
        }
        at
    }

    /// Sets pixel `x`, `y` of the framebuffer memory `fb` to the colour `r`, `g`, `b` (see
    /// `with_pixel`); a pixel outside the screen is passed over.
    pub fn write_pixel(&self, fb: &mut [u8], x: u32, y: u32, r: u8, g: u8, b: u8)
        requires
            y < self.info.height ==> y * self.info.pitch + (self.info.width - 1) * (self.info.bits_per_pixel / 8) <= u32::MAX,
            self.info.bits_per_pixel == 32 ==> self.info.r_shift < 32 && self.info.g_shift < 32 && self.info.b_shift < 32,
            x < self.info.width && y < self.info.height ==> pixel_index(self.info, x, y) + pixel_span(self.info) <= old(fb)@.len(),
        ensures
            !(x < self.info.width && y < self.info.height) ==> final(fb)@ == old(fb)@,
            x < self.info.width && y < self.info.height ==> final(fb)@ == with_pixel(
                old(fb)@,
                self.info,
                pixel_index(self.info, x, y),
                r,
                g,
                b,
            ),
    {
        let off = match self.info.pixel_offset(x, y) {
            None => {
                return;
            },
            Some(o) => o as usize,
        };
        proof {
            let bpp = self.info.bits_per_pixel / 8;
            assert(x * bpp <= (self.info.width - 1) * bpp) by (nonlinear_arith)
                requires
                    x <= self.info.width - 1,
                    bpp >= 0,
            ;
            assert(off == pixel_index(self.info, x, y));
        }
        if self.info.bits_per_pixel == 32 {
            let c = self.info.compose_color(r, g, b);
            fb[off] = (c % 0x100) as u8;
            fb[off + 1] = ((c / 0x100) % 0x100) as u8;
            fb[off + 2] = ((c / 0x1_0000) % 0x100) as u8;
            fb[off + 3] = (c / 0x100_0000) as u8;
        } else {
            let len = fb.len();
            assert(off + pixel_span(self.info) <= len);
            fb[off + (self.info.r_shift / 8) as usize] = r;
            fb[off + (self.info.g_shift / 8) as usize] = g;
            fb[off + (self.info.b_shift / 8) as usize] = b;
        }
    }

    /// Copies the first `width * height` pixel values of `data` into the framebuffer memory
    /// `fb`, one after the other, each least significant byte first; the bytes after them
    /// are left.
    pub fn draw_wallpaper(&self, fb: &mut [u8], data: &[u32])
        requires
            self.info.width * self.info.height * 4 <= u32::MAX,
            self.info.width * self.info.height <= data@.len(),
            self.info.width * self.info.height * 4 <= old(fb)@.len(),
        ensures
            final(fb)@.len() == old(fb)@.len(),
            forall|k: int| 0 <= k < self.info.width * self.info.height * 4 ==> #[trigger] final(fb)@[k] == le32(data@[k / 4])[k % 4],
            forall|k: int| self.info.width * self.info.height * 4 <= k < old(fb)@.len() ==> #[trigger] final(fb)@[k] == old(fb)@[k],
    {
        proof {
            assert(self.info.width * self.info.height <= self.info.width * self.info.height * 4) by (nonlinear_arith);
        }
        let n = (self.info.width * self.info.height) as usize;
        let mut i: usize = 0;
        while i < n
            invariant
                n == self.info.width * self.info.height,
                n * 4 <= u32::MAX,
                n <= data@.len(),
                n * 4 <= old(fb)@.len(),
                i <= n,
                fb@.len() == old(fb)@.len(),
                forall|k: int| 0 <= k < i * 4 ==> #[trigger] fb@[k] == le32(data@[k / 4])[k % 4],
                forall|k: int| i * 4 <= k < old(fb)@.len() ==> #[trigger] fb@[k] == old(fb)@[k],
            decreases n - i,
        {
            let c = data[i];
            let o = i * 4;
            fb[o] = (c % 0x100) as u8;
            fb[o + 1] = ((c / 0x100) % 0x100) as u8;
            fb[o + 2] = ((c / 0x1_0000) % 0x100) as u8;
            fb[o + 3] = (c / 0x100_0000) as u8;
            proof {
                assert forall|k: int| 0 <= k < (i + 1) * 4 implies #[trigger] fb@[k] == le32(data@[k / 4])[k % 4] by {
                    if k >= i * 4 {
                        assert(k / 4 == i);
                        assert(k % 4 == k - i * 4);
                    }
                }
            }
            i = i + 1;
        }
    }
}
} // verus!
