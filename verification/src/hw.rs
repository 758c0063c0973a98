//! Virtual hardware: linear RAM, the GPU framebuffer, the bus that owns
//! both, and a placeholder instruction stepper.

use vstd::prelude::*;

verus! {

/// Byte-addressable linear memory. Out-of-range reads return 0 and
/// out-of-range writes are ignored.
pub struct Ram {
    pub mem: Vec<u8>,
    pub size: usize,
}

impl Ram {
    /// The memory invariant: the byte vector has exactly the declared size.
    pub open spec fn wf(self) -> bool {
        self.mem@.len() == self.size
    }

    pub fn new(size: usize) -> (r: Ram)
        ensures
            r.wf(),
            r.size == size,
            forall|i: int| 0 <= i < size ==> r.mem@[i] == 0u8,
    {
        Ram { mem: vec![0u8; size], size }
    }

    /// Read one byte; 0 when the address is out of range.
    pub fn read_u8(&self, addr: u32) -> (b: u8)
        requires
            self.wf(),
        ensures
            b == if addr < self.size {
                self.mem@[addr as int]
            } else {
                0u8
            },
    {
        if (addr as usize) < self.size {
            self.mem[addr as usize]
        } else {
            0
        }
    }

    /// Write one byte; out-of-range writes change nothing.
    pub fn write_u8(&mut self, addr: u32, val: u8)
        requires
            old(self).wf(),
        ensures
            final(self).wf(),
            final(self).size == old(self).size,
            final(self).mem@ == if addr < old(self).size {
                old(self).mem@.update(addr as int, val)
            } else {
                old(self).mem@
            },
    {
        if (addr as usize) < self.size {
            self.mem[addr as usize] = val;
        }
    }

    /// Read a little-endian 32-bit word; 0 when any byte is out of range.
    pub fn read_u32(&self, addr: u32) -> (v: u32)
        requires
            self.wf(),
        ensures
            v == if addr + 4 <= self.size {
                spec_le32(
                    self.mem@[addr as int],
                    self.mem@[addr + 1],
                    self.mem@[addr + 2],
                    self.mem@[addr + 3],
                )
            } else {
                0u32
            },
    {
        let a = addr as usize;
        if a < self.size && self.size - a >= 4 {
            le32(self.mem[a], self.mem[a + 1], self.mem[a + 2], self.mem[a + 3])
        } else {
            0
        }
    }

    /// Write a 32-bit word as four little-endian bytes; writes that would
    /// run past the end change nothing.
    pub fn write_u32(&mut self, addr: u32, val: u32)
        requires
            old(self).wf(),
        ensures
            final(self).wf(),
            final(self).size == old(self).size,
            final(self).mem@ == if addr + 4 <= old(self).size {
                old(self).mem@.update(addr as int, (val & 0xFF) as u8).update(
                    addr + 1,
                    ((val >> 8) & 0xFF) as u8,
                ).update(addr + 2, ((val >> 16) & 0xFF) as u8).update(
                    addr + 3,
                    ((val >> 24) & 0xFF) as u8,
                )
            } else {
                old(self).mem@
            },
    {
        let a = addr as usize;
        if a < self.size && self.size - a >= 4 {
            self.mem[a] = (val & 0xFF) as u8;
            self.mem[a + 1] = ((val >> 8) & 0xFF) as u8;
            self.mem[a + 2] = ((val >> 16) & 0xFF) as u8;
            self.mem[a + 3] = ((val >> 24) & 0xFF) as u8;
        }
    }
}

/// A 32-bit word assembled from four little-endian bytes.
pub open spec fn spec_le32(b0: u8, b1: u8, b2: u8, b3: u8) -> u32 {
    (b0 as u32) | ((b1 as u32) << 8) | ((b2 as u32) << 16) | ((b3 as u32) << 24)
}

fn le32(b0: u8, b1: u8, b2: u8, b3: u8) -> (v: u32)
    ensures
        v == spec_le32(b0, b1, b2, b3),
{
    (b0 as u32) | ((b1 as u32) << 8) | ((b2 as u32) << 16) | ((b3 as u32) << 24)
}

/// The red component of a packed 32-bit RGBA color.
pub open spec fn spec_color_r(c: u32) -> u8 {
    ((c >> 24) & 0xFF) as u8
}

/// The green component of a packed 32-bit RGBA color.
pub open spec fn spec_color_g(c: u32) -> u8 {
    ((c >> 16) & 0xFF) as u8
}

/// The blue component of a packed 32-bit RGBA color.
pub open spec fn spec_color_b(c: u32) -> u8 {
    ((c >> 8) & 0xFF) as u8
}

/// The alpha component of a packed 32-bit RGBA color.
pub open spec fn spec_color_a(c: u32) -> u8 {
    (c & 0xFF) as u8
}

/// The first `upto` pixels of the framebuffer all hold the opaque color
/// (r, g, b, 255).
pub open spec fn spec_filled(gpu: Gpu, r: u8, g: u8, b: u8, upto: int) -> bool {
    forall|q: int|
        0 <= q < upto ==> #[trigger] gpu.buffer@[4 * q] == r && gpu.buffer@[4 * q + 1] == g
            && gpu.buffer@[4 * q + 2] == b && gpu.buffer@[4 * q + 3] == 255u8
}

/// The framebuffer: `width` x `height` pixels, four bytes each, RGBA.
pub struct Gpu {
    pub width: u32,
    pub height: u32,
    pub buffer: Vec<u8>,
}

impl Gpu {
    /// The framebuffer invariant: the byte buffer covers the whole
    /// resolution, four bytes per pixel.
    pub open spec fn wf(self) -> bool {
        &&& self.buffer@.len() == self.width * self.height * 4
        &&& self.width * self.height * 4 <= usize::MAX
        &&& self.width <= i32::MAX
        &&& self.height <= i32::MAX
    }

    /// The four bytes of the pixel at column `px`, row `py`.
    pub open spec fn pixel_at(self, px: int, py: int) -> (u8, u8, u8, u8) {
        let base = 4 * (py * self.width + px);
        (self.buffer@[base], self.buffer@[base + 1], self.buffer@[base + 2], self.buffer@[base + 3])
    }

    pub fn new(width: u32, height: u32) -> (g: Gpu)
        requires
            width * height * 4 <= usize::MAX,
            width <= i32::MAX,
            height <= i32::MAX,
        ensures
            g.wf(),
            g.width == width,
            g.height == height,
            forall|i: int| 0 <= i < g.buffer@.len() ==> g.buffer@[i] == 255u8,
    {
        let size = (width as usize) * (height as usize) * 4;
        Gpu { width, height, buffer: vec![255u8; size] }
    }

    /// Fill every pixel with the given opaque color.
    pub fn clear(&mut self, r: u8, g: u8, b: u8)
        requires
            old(self).wf(),
        ensures
            final(self).wf(),
            final(self).width == old(self).width,
            final(self).height == old(self).height,
            spec_filled(*final(self), r, g, b, final(self).width * final(self).height),
    {
        let count = (self.width as usize) * (self.height as usize);
        let mut p: usize = 0;
        while p < count
            invariant
                count == self.width * self.height,
                self.wf(),
                self.width == old(self).width,
                self.height == old(self).height,
                p <= count,
                spec_filled(*self, r, g, b, p as int),
            decreases count - p,
        {
            let base = 4 * p;
            self.buffer[base] = r;
            self.buffer[base + 1] = g;
            self.buffer[base + 2] = b;
            self.buffer[base + 3] = 255;
            p = p + 1;
        }
    }

    /// Set one pixel to a packed RGBA color; coordinates off the screen are
    /// ignored.
    pub fn put_pixel(&mut self, x: i32, y: i32, color: u32)
        requires
            old(self).wf(),
        ensures
            final(self).wf(),
            final(self).width == old(self).width,
            final(self).height == old(self).height,
            forall|px: int, py: int|
                0 <= px < old(self).width && 0 <= py < old(self).height ==> #[trigger] final(self).pixel_at(px, py) == if px == x && py == y {
                    (spec_color_r(color), spec_color_g(color), spec_color_b(color), spec_color_a(color))
                } else {
                    old(self).pixel_at(px, py)
                },
    {
        if x < 0 || y < 0 || x >= self.width as i32 || y >= self.height as i32 {
            return ;
        }
        proof {
            lemma_pixel_base_bounds(self.width as int, self.height as int, x as int, y as int);
        }
        let idx = (((y as u32 as usize) * (self.width as usize)) + (x as u32 as usize)) * 4;
        let r = ((color >> 24) & 0xFF) as u8;
        let g = ((color >> 16) & 0xFF) as u8;
        let b = ((color >> 8) & 0xFF) as u8;
        let a = (color & 0xFF) as u8;
        self.buffer[idx] = r;
        self.buffer[idx + 1] = g;
        self.buffer[idx + 2] = b;
        self.buffer[idx + 3] = a;
        proof {
            assert forall|px: int, py: int|
                0 <= px < old(self).width && 0 <= py < old(self).height && !(px == x && py
                    == y) implies #[trigger] final(self).pixel_at(px, py) == old(self).pixel_at(
                px,
                py,
            ) by {
                lemma_pixel_base_injective(
                    self.width as int,
                    self.height as int,
                    px,
                    py,
                    x as int,
                    y as int,
                );
                lemma_pixel_base_bounds(self.width as int, self.height as int, px, py);
            }
        }
    }

    /// Fill a rectangle, clipped to the screen. Pixels outside the clipped
    /// rectangle keep their old value.
    pub fn fill_rect(&mut self, x: i32, y: i32, w: i32, h: i32, color: u32)
        requires
            old(self).wf(),
        ensures
            final(self).wf(),
            final(self).width == old(self).width,
            final(self).height == old(self).height,
            forall|px: int, py: int|
                0 <= px < old(self).width && 0 <= py < old(self).height ==> #[trigger] final(self).pixel_at(px, py) == if x <= px < x + w && y <= py < y + h {
                    (spec_color_r(color), spec_color_g(color), spec_color_b(color), spec_color_a(color))
                } else {
                    old(self).pixel_at(px, py)
                },
    {
        let sx: i64 = if x > 0 {
            x as i64
        } else {
            0
        };
        let sy: i64 = if y > 0 {
            y as i64
        } else {
            0
        };
        let ex: i64 = if (x as i64) + (w as i64) < self.width as i64 {
            (x as i64) + (w as i64)
        } else {
            self.width as i64
        };
        let ey: i64 = if (y as i64) + (h as i64) < self.height as i64 {
            (y as i64) + (h as i64)
        } else {
            self.height as i64
        };
        if sx >= ex || sy >= ey {
            return ;
        }
        let mut iy: i64 = sy;
        while iy < ey
            invariant
                self.wf(),
                self.width == old(self).width,
                self.height == old(self).height,
                sy <= iy <= ey,
                0 <= sx < ex <= self.width,
                0 <= sy < ey <= self.height,
                ex <= x + w,
                ey <= y + h,
                x <= sx,
                y <= sy,
                sx <= i32::MAX,
                sy <= i32::MAX,
                forall|px: int, py: int|
                    0 <= px < old(self).width && 0 <= py < old(self).height
                        ==> #[trigger] self.pixel_at(px, py) == if x <= px < x + w && y <= py < y
                        + h && py < iy {
                        (spec_color_r(color), spec_color_g(color), spec_color_b(color), spec_color_a(color))
                    } else {
                        old(self).pixel_at(px, py)
                    },
            decreases ey - iy,
        {
            let mut ix: i64 = sx;
            while ix < ex
                invariant
                    self.wf(),
                    self.width == old(self).width,
                    self.height == old(self).height,
                    sy <= iy < ey,
                    sx <= ix <= ex,
                    0 <= sx < ex <= self.width,
                    0 <= sy < ey <= self.height,
                    ex <= x + w,
                    ey <= y + h,
                    x <= sx,
                    y <= sy,
                    sx <= i32::MAX,
                    sy <= i32::MAX,
                    forall|px: int, py: int|
                        0 <= px < old(self).width && 0 <= py < old(self).height
                            ==> #[trigger] self.pixel_at(px, py) == if x <= px < x + w && y <= py
                            < y + h && (py < iy || (py == iy && px < ix)) {
                            (spec_color_r(color), spec_color_g(color), spec_color_b(color), spec_color_a(color))
                        } else {
                            old(self).pixel_at(px, py)
                        },
                decreases ex - ix,
            {
                self.put_pixel(ix as i32, iy as i32, color);
                ix = ix + 1;
            }
            iy = iy + 1;
        }
    }
}

/// Distinct in-bounds pixel coordinates have distinct byte ranges.
pub(crate) proof fn lemma_pixel_base_injective(w: int, h: int, px: int, py: int, qx: int, qy: int)
    by (nonlinear_arith)
    requires
        0 <= px < w,
        0 <= qx < w,
        0 <= py,
        0 <= qy,
        !(px == qx && py == qy),
    ensures
        py * w + px != qy * w + qx,
{
}

/// An in-bounds pixel's four bytes lie inside the buffer.
pub(crate) proof fn lemma_pixel_base_bounds(w: int, h: int, px: int, py: int)
    by (nonlinear_arith)
    requires
        0 <= px < w,
        0 <= py < h,
    ensures
        0 <= 4 * (py * w + px),
        4 * (py * w + px) + 4 <= w * h * 4,
{
}

/// The placeholder instruction stepper: registers, a program counter and a
/// version tag. No real instruction set runs yet.
pub struct Cpu {
    pub regs: [u32; 32],
    pub pc: u32,
    pub version: u8,
}

impl Cpu {
    pub fn new() -> (c: Cpu)
        ensures
            c.pc == 0,
            c.version == 1,
            forall|i: int| 0 <= i < 32 ==> c.regs@[i] == 0u32,
    {
        Cpu { regs: [0; 32], pc: 0, version: 1 }
    }

    /// One fetch cycle: the program counter advances by one instruction
    /// width, wrapping at the end of the address space.
    pub fn step(&mut self, bus: &mut Bus)
        ensures
            final(self).pc == vstd::wrapping::u32_specs::wrapping_add(old(self).pc, 4),
            final(self).regs == old(self).regs,
            final(self).version == old(self).version,
            *final(bus) == *old(bus),
    {
        self.pc = self.pc.wrapping_add(4);
    }
}

/// The bus owns the RAM and the framebuffer; every component reaches the
/// hardware through it.
pub struct Bus {
    pub ram: Ram,
    pub gpu: Gpu,
}

impl Bus {
    pub fn new(ram: Ram, gpu: Gpu) -> (b: Bus)
        ensures
            b.ram == ram,
            b.gpu == gpu,
    {
        Bus { ram, gpu }
    }
}

} // verus!
