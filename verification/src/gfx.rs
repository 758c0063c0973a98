//! Drawing: a standalone RGBA drawing context and the 8x8 bitmap font
//! used to paint characters onto the framebuffer.

use vstd::prelude::*;
use crate::hw::Gpu;
use crate::hw::spec_color_r;
use crate::hw::spec_color_g;
use crate::hw::spec_color_b;
use crate::hw::spec_color_a;
use crate::hw::lemma_pixel_base_bounds;
use crate::hw::lemma_pixel_base_injective;

verus! {

/// An RGBA pixel buffer independent of the machine's framebuffer.
pub struct Context {
    pub width: u32,
    pub height: u32,
    pub buffer: Vec<u8>,
}

/// The first `upto` pixels of the context all hold the opaque color
/// (r, g, b, 255).
pub open spec fn spec_ctx_filled(ctx: Context, r: u8, g: u8, b: u8, upto: int) -> bool {
    forall|q: int|
        0 <= q < upto ==> #[trigger] ctx.buffer@[4 * q] == r && ctx.buffer@[4 * q + 1] == g
            && ctx.buffer@[4 * q + 2] == b && ctx.buffer@[4 * q + 3] == 255u8
}

impl Context {
    /// The context invariant: the byte buffer covers the whole resolution,
    /// four bytes per pixel.
    pub open spec fn wf(self) -> bool {
        &&& self.buffer@.len() == self.width * self.height * 4
        &&& self.width * self.height * 4 <= usize::MAX
    }

    /// The four bytes of the pixel at column `px`, row `py`.
    pub open spec fn pixel_at(self, px: int, py: int) -> (u8, u8, u8, u8) {
        let base = 4 * (py * self.width + px);
        (self.buffer@[base], self.buffer@[base + 1], self.buffer@[base + 2], self.buffer@[base + 3])
    }

    pub fn new(width: u32, height: u32) -> (c: Context)
        requires
            width * height * 4 <= usize::MAX,
        ensures
            c.wf(),
            c.width == width,
            c.height == height,
            forall|i: int| 0 <= i < c.buffer@.len() ==> c.buffer@[i] == 255u8,
    {
        let size = (width as usize) * (height as usize) * 4;
        Context { width, height, buffer: vec![255u8; size] }
    }

    /// Fill every pixel with the given opaque color.
    pub fn clear(&mut self, r: u8, g: u8, b: u8)
        requires
            old(self).wf(),
        ensures
            final(self).wf(),
            final(self).width == old(self).width,
            final(self).height == old(self).height,
            spec_ctx_filled(*final(self), r, g, b, final(self).width * final(self).height),
    {
        let count = (self.width as usize) * (self.height as usize);
        let mut p: usize = 0;
        while p < count
            invariant
                count == self.width * self.height,
                self.wf(),
                self.width == old(self).width,
                self.height == old(self).height,
                p <= count,
                spec_ctx_filled(*self, r, g, b, p as int),
            decreases count - p,
        {
            let base = 4 * p;
            self.buffer[base] = r;
            self.buffer[base + 1] = g;
            self.buffer[base + 2] = b;
            self.buffer[base + 3] = 255;
            p = p + 1;
        }
    }

    /// Set one pixel to a packed RGBA color; coordinates off the buffer are
    /// ignored.
    pub fn put_pixel(&mut self, x: u32, y: u32, color: u32)
        requires
            old(self).wf(),
        ensures
            final(self).wf(),
            final(self).width == old(self).width,
            final(self).height == old(self).height,
            forall|px: int, py: int|
                0 <= px < old(self).width && 0 <= py < old(self).height ==> #[trigger] final(self).pixel_at(px, py) == if px == x && py == y {
                    (
                        spec_color_r(color),
                        spec_color_g(color),
                        spec_color_b(color),
                        spec_color_a(color),
                    )
                } else {
                    old(self).pixel_at(px, py)
                },
    {
        if x >= self.width || y >= self.height {
            return ;
        }
        proof {
            lemma_pixel_base_bounds(self.width as int, self.height as int, x as int, y as int);
        }
        let idx = (((y as usize) * (self.width as usize)) + (x as usize)) * 4;
        self.buffer[idx] = ((color >> 24) & 0xFF) as u8;
        self.buffer[idx + 1] = ((color >> 16) & 0xFF) as u8;
        self.buffer[idx + 2] = ((color >> 8) & 0xFF) as u8;
        self.buffer[idx + 3] = (color & 0xFF) as u8;
        proof {
            assert forall|px: int, py: int|
                0 <= px < old(self).width && 0 <= py < old(self).height && !(px == x && py
                    == y) implies #[trigger] final(self).pixel_at(px, py) == old(self).pixel_at(
                px,
                py,
            ) by {
                lemma_pixel_base_injective(
                    self.width as int,
                    self.height as int,
                    px,
                    py,
                    x as int,
                    y as int,
                );
                lemma_pixel_base_bounds(self.width as int, self.height as int, px, py);
            }
        }
    }

    /// Fill a rectangle, clipped to the buffer. Pixels outside the clipped
    /// rectangle keep their old value.
    pub fn fill_rect(&mut self, x: u32, y: u32, w: u32, h: u32, color: u32)
        requires
            old(self).wf(),
        ensures
            final(self).wf(),
            final(self).width == old(self).width,
            final(self).height == old(self).height,
            forall|px: int, py: int|
                0 <= px < old(self).width && 0 <= py < old(self).height ==> #[trigger] final(self).pixel_at(px, py) == if x <= px < x + w && y <= py < y + h {
                    (
                        spec_color_r(color),
                        spec_color_g(color),
                        spec_color_b(color),
                        spec_color_a(color),
                    )
                } else {
                    old(self).pixel_at(px, py)
                },
    {
        let ex: u64 = if (x as u64) + (w as u64) < self.width as u64 {
            (x as u64) + (w as u64)
        } else {
            self.width as u64
        };
        let ey: u64 = if (y as u64) + (h as u64) < self.height as u64 {
            (y as u64) + (h as u64)
        } else {
            self.height as u64
        };
        if (x as u64) >= ex || (y as u64) >= ey {
            return ;
        }
        let mut iy: u64 = y as u64;
        while iy < ey
            invariant
                self.wf(),
                self.width == old(self).width,
                self.height == old(self).height,
                y <= iy <= ey,
                x < ex <= self.width,
                y < ey <= self.height,
                ex <= x + w,
                ey <= y + h,
                forall|px: int, py: int|
                    0 <= px < old(self).width && 0 <= py < old(self).height
                        ==> #[trigger] self.pixel_at(px, py) == if x <= px < x + w && y <= py < y
                        + h && py < iy {
                        (
                            spec_color_r(color),
                            spec_color_g(color),
                            spec_color_b(color),
                            spec_color_a(color),
                        )
                    } else {
                        old(self).pixel_at(px, py)
                    },
            decreases ey - iy,
        {
            let mut ix: u64 = x as u64;
            while ix < ex
                invariant
                    self.wf(),
                    self.width == old(self).width,
                    self.height == old(self).height,
                    y <= iy < ey,
                    x <= ix <= ex,
                    x < ex <= self.width,
                    y < ey <= self.height,
                    ex <= x + w,
                    ey <= y + h,
                    forall|px: int, py: int|
                        0 <= px < old(self).width && 0 <= py < old(self).height
                            ==> #[trigger] self.pixel_at(px, py) == if x <= px < x + w && y <= py
                            < y + h && (py < iy || (py == iy && px < ix)) {
                            (
                                spec_color_r(color),
                                spec_color_g(color),
                                spec_color_b(color),
                                spec_color_a(color),
                            )
                        } else {
                            old(self).pixel_at(px, py)
                        },
                decreases ex - ix,
            {
                self.put_pixel(ix as u32, iy as u32, color);
                ix = ix + 1;
            }
            iy = iy + 1;
        }
    }
}

/// The 8 rows of the 8x8 bitmap glyph the font crate holds for `c`.
/// Meaningful only for the first 128 code points, the range the basic
/// table covers.
pub uninterp spec fn glyph_of(c: char) -> Seq<u8>;

/// Relies on font8x8's `BASIC_FONTS.get`: the table maps each of the first
/// 128 code points, and only those, to an 8-byte glyph, and the result
/// depends on the character alone.
#[verifier::external_body]
fn basic_glyph(c: char) -> (r: Option<Vec<u8>>)
    ensures
        r is Some <==> (c as int) < 128,
        r matches Some(g) ==> g@ == glyph_of(c) && g@.len() == 8,
{
    font8x8::UnicodeFonts::get(&font8x8::BASIC_FONTS, c).map(|a| a.to_vec())
}

/// Whether the font paints the cell (`dx`, `dy`) of the 8x8 box for `c`:
/// the glyph bit for characters the font covers, a box border for the
/// rest.
pub open spec fn spec_char_mask(c: char, dx: u8, dy: u8) -> bool {
    if (c as int) < 128 {
        ((glyph_of(c)[dy as int] >> dx) & 1) == 1
    } else {
        dx == 0 || dx == 7 || dy == 0 || dy == 7
    }
}

/// A set bit in a glyph row, tested the way the renderer tests it.
proof fn lemma_bit_test(b: u8, sh: u8)
    by (bit_vector)
    requires
        sh < 8,
    ensures
        ((b & (1u8 << sh)) != 0) == (((b >> sh) & 1) == 1),
{
}

/// Paint one character cell: each set cell of the 8x8 mask for `c` becomes
/// `color`; every other pixel keeps its value. Cells that fall off the
/// screen are ignored.
pub fn draw_char(gpu: &mut Gpu, x: i32, y: i32, c: char, color: u32)
    requires
        old(gpu).wf(),
    ensures
        final(gpu).wf(),
        final(gpu).width == old(gpu).width,
        final(gpu).height == old(gpu).height,
        forall|px: int, py: int|
            0 <= px < old(gpu).width && 0 <= py < old(gpu).height ==> #[trigger] final(gpu).pixel_at(px, py) == if x <= px < x + 8 && y <= py < y + 8 && spec_char_mask(
                c,
                (px - x) as u8,
                (py - y) as u8,
            ) {
                (spec_color_r(color), spec_color_g(color), spec_color_b(color), spec_color_a(color))
            } else {
                old(gpu).pixel_at(px, py)
            },
{
    let glyph = basic_glyph(c);
    let mut dy: u8 = 0;
    while dy < 8
        invariant
            gpu.wf(),
            gpu.width == old(gpu).width,
            gpu.height == old(gpu).height,
            dy <= 8,
            glyph matches Some(g) ==> g@ == glyph_of(c) && g@.len() == 8,
            glyph is Some <==> (c as int) < 128,
            forall|px: int, py: int|
                0 <= px < old(gpu).width && 0 <= py < old(gpu).height ==> #[trigger] gpu.pixel_at(
                    px,
                    py,
                ) == if x <= px < x + 8 && y <= py < y + 8 && spec_char_mask(
                    c,
                    (px - x) as u8,
                    (py - y) as u8,
                ) && py - y < dy {
                    (
                        spec_color_r(color),
                        spec_color_g(color),
                        spec_color_b(color),
                        spec_color_a(color),
                    )
                } else {
                    old(gpu).pixel_at(px, py)
                },
        decreases 8 - dy,
    {
        let mut dx: u8 = 0;
        while dx < 8
            invariant
                gpu.wf(),
                gpu.width == old(gpu).width,
                gpu.height == old(gpu).height,
                dy < 8,
                dx <= 8,
                glyph matches Some(g) ==> g@ == glyph_of(c) && g@.len() == 8,
                glyph is Some <==> (c as int) < 128,
                forall|px: int, py: int|
                    0 <= px < old(gpu).width && 0 <= py < old(gpu).height
                        ==> #[trigger] gpu.pixel_at(px, py) == if x <= px < x + 8 && y <= py < y
                        + 8 && spec_char_mask(c, (px - x) as u8, (py - y) as u8) && (py - y < dy
                        || (py - y == dy && px - x < dx)) {
                        (
                            spec_color_r(color),
                            spec_color_g(color),
                            spec_color_b(color),
                            spec_color_a(color),
                        )
                    } else {
                        old(gpu).pixel_at(px, py)
                    },
            decreases 8 - dx,
        {
            let on: bool = match &glyph {
                Some(g) => {
                    let row = g[dy as usize];
                    proof {
                        lemma_bit_test(row, dx);
                    }
                    (row & (1u8 << dx)) != 0
                },
                None => dx == 0 || dx == 7 || dy == 0 || dy == 7,
            };
            assert(on == spec_char_mask(c, dx, dy));
            if on {
                let px64: i64 = (x as i64) + (dx as i64);
                let py64: i64 = (y as i64) + (dy as i64);
                if px64 <= i32::MAX as i64 && py64 <= i32::MAX as i64 {
                    gpu.put_pixel(px64 as i32, py64 as i32, color);
                }
                // otherwise the cell lies beyond the coordinate range and
                // so beyond the screen: nothing to paint
            }
            dx = dx + 1;
        }
        dy = dy + 1;
    }
}

/// Whether the 8x8 cell drawn for character `c` at column `cx`, row `y`
/// paints the pixel (`px`, `py`).
pub open spec fn spec_char_cell_hit(c: char, cx: int, y: int, px: int, py: int) -> bool {
    cx <= px < cx + 8 && y <= py < y + 8 && spec_char_mask(c, (px - cx) as u8, (py - y) as u8)
}

/// Whether a text run drawn at (`x`, `y`), 8 pixels per character,
/// paints the pixel (`px`, `py`). Characters whose cell would start
/// beyond the coordinate range are not drawn at all.
pub open spec fn spec_text_mask(text: Seq<char>, x: int, y: int, px: int, py: int) -> bool {
    exists|i: int|
        0 <= i < text.len() && x + 8 * i <= i32::MAX && #[trigger] spec_char_cell_hit(
            text[i],
            x + 8 * i,
            y,
            px,
            py,
        )
}

/// Drawing one more character extends the painted set by exactly that
/// character's cell.
pub proof fn lemma_text_mask_extend(
    text: Seq<char>,
    x: int,
    y: int,
    i: int,
    px: int,
    py: int,
    hit: bool,
)
    requires
        0 <= i < text.len(),
        hit == (x + 8 * i <= i32::MAX && spec_char_cell_hit(text[i], x + 8 * i, y, px, py)),
    ensures
        spec_text_mask(text.take(i + 1), x, y, px, py) == (spec_text_mask(
            text.take(i),
            x,
            y,
            px,
            py,
        ) || hit),
{
    if spec_text_mask(text.take(i), x, y, px, py) {
        let j = choose|j: int|
            0 <= j < text.take(i).len() && x + 8 * j <= i32::MAX && #[trigger] spec_char_cell_hit(
                text.take(i)[j],
                x + 8 * j,
                y,
                px,
                py,
            );
        assert(text.take(i + 1)[j] == text.take(i)[j]);
        assert(spec_char_cell_hit(text.take(i + 1)[j], x + 8 * j, y, px, py));
    }
    if hit {
        assert(text.take(i + 1)[i] == text[i]);
        assert(spec_char_cell_hit(text.take(i + 1)[i], x + 8 * i, y, px, py));
    }
    if spec_text_mask(text.take(i + 1), x, y, px, py) && !spec_text_mask(text.take(i), x, y, px, py)
        && !hit {
        let j = choose|j: int|
            0 <= j < text.take(i + 1).len() && x + 8 * j <= i32::MAX
                && #[trigger] spec_char_cell_hit(text.take(i + 1)[j], x + 8 * j, y, px, py);
        if j < i {
            assert(text.take(i)[j] == text.take(i + 1)[j]);
            assert(spec_char_cell_hit(text.take(i)[j], x + 8 * j, y, px, py));
            assert(false);
        } else {
            assert(j == i);
            assert(false);
        }
    }
}

} // verus!
