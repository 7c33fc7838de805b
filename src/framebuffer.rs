use vstd::prelude::*;

verus! {

/// The 8x8 bitmap of ASCII character `c` in the font8x8 legacy table: one
/// byte per row, bit 0 the leftmost pixel.
pub uninterp spec fn legacy_glyph(c: u8) -> Seq<u8>;

/// Relies on font8x8::legacy::BASIC_LEGACY, the table of the 128 ASCII glyphs.
#[verifier::external_body]
fn glyph(c: u8) -> (r: [u8; 8])
    requires
        c < 128,
    ensures
        r@ == legacy_glyph(c),
{
    font8x8::legacy::BASIC_LEGACY[c as usize]
}

/// A linear framebuffer: `stride` pixels per row, `bytes_per_pixel` bytes
/// each, blue-green-red then a reserved byte.
pub struct Framebuffer {
    buffer: Vec<u8>,
    width: usize,
    height: usize,
    stride: usize,
    bytes_per_pixel: usize,
}

/// The bytes at `off` hold `color`, then a zero byte.
pub open spec fn pixel_is(bytes: Seq<u8>, off: int, color: Seq<u8>) -> bool {
    bytes[off] == color[0] && bytes[off + 1] == color[1] && bytes[off + 2] == color[2] && bytes[off + 3] == 0
}

/// Cell `j` (of `bpp` bytes) holds `color`, if it lies in the buffer.
pub open spec fn cleared(bytes: Seq<u8>, bpp: int, j: int, color: Seq<u8>) -> bool {
    j * bpp + 3 < bytes.len() ==> pixel_is(bytes, j * bpp, color)
}

proof fn lemma_past_buffer(j: int, bpp: int, len: int, n: int, total: int, cells: int)
    requires
        bpp >= 4,
        len >= 0,
        0 <= j < cells,
        j >= n,
        n == (if len / bpp < total { len / bpp + 1 } else { total }),
        total == cells || total >= len,
        total >= 0,
    ensures
        j * bpp + 3 >= len,
{
    let q = len / bpp;
    assert(len < (q + 1) * bpp) by (nonlinear_arith)
        requires q == len / bpp, bpp > 0, len >= 0;
    if len / bpp < total {
        assert(j * bpp >= (q + 1) * bpp) by (nonlinear_arith)
            requires j >= q + 1, bpp > 0;
    } else {
        assert(j >= total);
        assert(j * bpp >= j) by (nonlinear_arith) requires bpp >= 1, j >= 0;

    }
}

/// Byte offset of pixel (x, y).
pub open spec fn pixel_offset(fb: &Framebuffer, x: int, y: int) -> int {
    (y * fb.stride_spec() + x) * fb.bpp_spec()
}

impl Framebuffer {
    pub closed spec fn bytes(&self) -> Seq<u8> {
        self.buffer@
    }

    pub closed spec fn width_spec(&self) -> nat {
        self.width as nat
    }

    pub closed spec fn height_spec(&self) -> nat {
        self.height as nat
    }

    pub closed spec fn stride_spec(&self) -> int {
        self.stride as int
    }

    pub closed spec fn bpp_spec(&self) -> int {
        self.bytes_per_pixel as int
    }

    pub fn new(buffer: Vec<u8>, width: usize, height: usize, stride: usize, bytes_per_pixel: usize) -> (r: Self)
        ensures
            r.bytes() == buffer@,
            r.width_spec() == width,
            r.height_spec() == height,
            r.stride_spec() == stride,
            r.bpp_spec() == bytes_per_pixel,
    {
        Framebuffer { buffer, width, height, stride, bytes_per_pixel }
    }

    /// The pixel bytes.
    pub fn as_bytes(&self) -> (r: &Vec<u8>)
        ensures
            r@ == self.bytes(),
    {
        &self.buffer
    }

    /// (width, height).
    pub fn dimensions(&self) -> (r: (usize, usize))
        ensures
            r.0 == self.width_spec(),
            r.1 == self.height_spec(),
    {
        (self.width, self.height)
    }

    /// Sets pixel (x, y) to `color` (blue, green, red), reserved byte 0;
    /// nothing outside the screen or past the buffer.
    pub fn draw_pixel(&mut self, x: usize, y: usize, color: [u8; 3])
        ensures
            final(self).width_spec() == old(self).width_spec(),
            final(self).height_spec() == old(self).height_spec(),
            final(self).stride_spec() == old(self).stride_spec(),
            final(self).bpp_spec() == old(self).bpp_spec(),
            final(self).bytes().len() == old(self).bytes().len(),
            ({
                let i = pixel_offset(old(self), x as int, y as int);
                if x < old(self).width_spec() && y < old(self).height_spec() && i + 3 < old(self).bytes().len() {
                    final(self).bytes() == old(self).bytes().update(i, color@[0]).update(i + 1, color@[1])
                        .update(i + 2, color@[2]).update(i + 3, 0)
                } else {
                    final(self).bytes() == old(self).bytes()
                }
            }),
    {
        if x >= self.width || y >= self.height {
            return;
        }
        let len = self.buffer.len();
        let ghost off = pixel_offset(old(self), x as int, y as int);
        let idx: usize = if self.bytes_per_pixel == 0 {
            proof {
                let c = y as int * self.stride as int + x as int;
                assert(c * 0 == 0) by (nonlinear_arith);
            }
            0
        } else {
            proof {
                let c = y as int * self.stride as int + x as int;
                assert(c * self.bytes_per_pixel as int >= c) by (nonlinear_arith)
                    requires self.bytes_per_pixel >= 1, c >= 0;
                assert(y as int * self.stride as int >= 0) by (nonlinear_arith);
            }
            let row = match y.checked_mul(self.stride) {
                Some(v) => v,
                None => {
                    assert(off > usize::MAX);
                    return;
                },
            };
            let cell = match row.checked_add(x) {
                Some(v) => v,
                None => {
                    assert(off > usize::MAX);
                    return;
                },
            };
            match cell.checked_mul(self.bytes_per_pixel) {
                Some(v) => v,
                None => return,
            }
        };
        if idx < self.buffer.len() && self.buffer.len() - idx > 3 {
            self.buffer.set(idx, color[0]);
            self.buffer.set(idx + 1, color[1]);
            self.buffer.set(idx + 2, color[2]);
            self.buffer.set(idx + 3, 0);
        }
    }

    /// Fills every one of the stride * height pixel cells that lies in the
    /// buffer with `color` (reserved byte 0). With at least 4 bytes per
    /// pixel the cells do not overlap, and each ends up holding the color.
    pub fn clear(&mut self, color: [u8; 3])
        ensures
            final(self).width_spec() == old(self).width_spec(),
            final(self).height_spec() == old(self).height_spec(),
            final(self).stride_spec() == old(self).stride_spec(),
            final(self).bpp_spec() == old(self).bpp_spec(),
            final(self).bytes().len() == old(self).bytes().len(),
            old(self).bpp_spec() >= 4 ==> forall|j: int| 0 <= j < old(self).stride_spec() * old(self).height_spec()
                ==> #[trigger] cleared(final(self).bytes(), old(self).bpp_spec(), j, color@),
    {
        let len = self.buffer.len();
        let bpp = self.bytes_per_pixel;
        let total: usize = match self.stride.checked_mul(self.height) {
            Some(t) => t,
            None => usize::MAX,
        };
        let n: usize = if bpp == 0 { total } else if len / bpp < total { len / bpp + 1 } else { total };
        proof {
            assert(total as int == self.stride as int * self.height as int || total >= len);
        }
        proof {
            assert(self.stride as int * self.height as int >= 0) by (nonlinear_arith);
        }
        let mut i: usize = 0;
        while i < n
            invariant
                i <= n,
                self.width == old(self).width,
                self.height == old(self).height,
                self.stride == old(self).stride,
                self.bytes_per_pixel == bpp,
                self.buffer@.len() == len,
                bpp >= 4 ==> forall|j: int| 0 <= j < i ==> #[trigger] cleared(self.bytes(), bpp as int, j, color@),
            decreases n - i,
        {
            match i.checked_mul(bpp) {
                Some(idx) => {
                    if idx < len && len - idx > 3 {
                        let ghost before = self.bytes();
                        self.buffer.set(idx, color[0]);
                        self.buffer.set(idx + 1, color[1]);
                        self.buffer.set(idx + 2, color[2]);
                        self.buffer.set(idx + 3, 0);
                        proof {
                            if bpp >= 4 {
                                assert forall|j: int| 0 <= j < i + 1 implies #[trigger] cleared(self.bytes(), bpp as int, j, color@) by {
                                    if j < i {
                                        assert(j * bpp + bpp <= i * bpp) by (nonlinear_arith)
                                            requires j < i, bpp >= 4, j >= 0;
                                        assert(cleared(before, bpp as int, j, color@));
                                    }
                                }
                            }
                        }
                    } else {
                        proof {
                            if bpp >= 4 {
                                assert forall|j: int| 0 <= j < i + 1 implies #[trigger] cleared(self.bytes(), bpp as int, j, color@) by {
                                }
                            }
                        }
                    }
                },
                None => {
                    proof {
                        if bpp >= 4 {
                            assert forall|j: int| 0 <= j < i + 1 implies #[trigger] cleared(self.bytes(), bpp as int, j, color@) by {
                            }
                        }
                    }
                },
            }
            i = i + 1;
        }
        proof {
            if bpp >= 4 {
                assert forall|j: int| 0 <= j < self.stride as int * self.height as int
                    implies #[trigger] cleared(self.bytes(), bpp as int, j, color@) by {
                    if j >= n {
                        lemma_past_buffer(j, bpp as int, len as int, n as int, total as int,
                            self.stride as int * self.height as int);
                    }
                }
            }
        }
    }

    /// Draws ASCII character `ascii` at (x, y), each font pixel a
    /// `scale` x `scale` square in `fg` (bit set) or `bg`.
    pub fn draw_char(&mut self, x: usize, y: usize, ascii: u8, fg: [u8; 3], bg: [u8; 3], scale: usize)
        requires
            ascii < 128,
        ensures
            final(self).width_spec() == old(self).width_spec(),
            final(self).height_spec() == old(self).height_spec(),
            final(self).bytes().len() == old(self).bytes().len(),
    {
        let g = glyph(ascii);
        let mut row: usize = 0;
        while row < 8
            invariant
                self.width == old(self).width,
                self.height == old(self).height,
                self.bytes().len() == old(self).bytes().len(),
            decreases 8 - row,
        {
            let bits = g[row];
            let mut col: usize = 0;
            while col < 8
                invariant
                    self.width == old(self).width,
                    self.height == old(self).height,
                    self.bytes().len() == old(self).bytes().len(),
                decreases 8 - col,
            {
                let color = if (bits >> (col as u8)) & 1 != 0 { fg } else { bg };
                let mut sy: usize = 0;
                while sy < scale
                    invariant
                        self.width == old(self).width,
                        self.height == old(self).height,
                        self.bytes().len() == old(self).bytes().len(),
                    decreases scale - sy,
                {
                    let mut sx: usize = 0;
                    while sx < scale
                        invariant
                            self.width == old(self).width,
                            self.height == old(self).height,
                            self.bytes().len() == old(self).bytes().len(),
                        decreases scale - sx,
                    {
                        match (offset_of(x, col, scale, sx), offset_of(y, row, scale, sy)) {
                            (Some(px), Some(py)) => self.draw_pixel(px, py, color),
                            _ => {},
                        }
                        sx = sx + 1;
                    }
                    sy = sy + 1;
                }
                col = col + 1;
            }
            row = row + 1;
        }
    }

    /// Draws `text` from (x, y), one 8 * scale wide cell per byte; bytes
    /// outside ASCII leave their cell as it was.
    pub fn draw_text(&mut self, x: usize, y: usize, text: &[u8], fg: [u8; 3], bg: [u8; 3], scale: usize)
        ensures
            final(self).width_spec() == old(self).width_spec(),
            final(self).height_spec() == old(self).height_spec(),
            final(self).bytes().len() == old(self).bytes().len(),
    {
        let cell_width = match scale.checked_mul(8) {
            Some(w) => w,
            None => return,
        };
        let mut i: usize = 0;
        while i < text.len()
            invariant
                self.width == old(self).width,
                self.height == old(self).height,
                self.bytes().len() == old(self).bytes().len(),
            decreases text@.len() - i,
        {
            match offset_of(x, i, cell_width, 0) {
                Some(cx) => {
                    if cx < self.width && text[i] < 128 {
                        self.draw_char(cx, y, text[i], fg, bg, scale);
                    }
                },
                None => {},
            }
            i = i + 1;
        }
    }
}

/// `base + index * step + extra`, if it fits.
fn offset_of(base: usize, index: usize, step: usize, extra: usize) -> (r: Option<usize>)
    ensures
        r.is_some() ==> r.unwrap() == base + index * step + extra,
{
    let m = index.checked_mul(step)?;
    let a = base.checked_add(m)?;
    a.checked_add(extra)
}

/// The boot screen: black, the system's name at the top, the allocator
/// status near the bottom.
pub fn draw_boot_screen(fb: &mut Framebuffer)
    ensures
        final(fb).bytes().len() == old(fb).bytes().len(),
{
    fb.clear([0, 0, 0]);
    let title = vec![67u8, 111u8, 110u8, 115u8, 116u8, 97u8, 110u8, 79u8, 83u8, 32u8, 118u8, 48u8, 46u8, 49u8];
    fb.draw_text(10, 10, title.as_slice(), [0, 200, 255], [0, 0, 0], 2);
    let status = vec![65u8, 108u8, 108u8, 111u8, 99u8, 97u8, 116u8, 111u8, 114u8, 58u8, 32u8, 82u8, 101u8, 97u8, 100u8, 121u8];
    fb.draw_text(10, 770, status.as_slice(), [0, 255, 0], [0, 0, 0], 2);
}

} // verus!
