//! The text terminal grid: a `cols` x `rows` matrix of colored character
//! cells with a cursor, newline / carriage-return / backspace handling and
//! scrolling, and a renderer that paints the grid onto the framebuffer.

use vstd::prelude::*;
use crate::hw::Gpu;
use crate::gfx::draw_char;

verus! {

/// One character cell: the character and its foreground and background
/// colors.
#[derive(Clone, Copy, Debug, PartialEq, Eq, Structural)]
pub struct Cell {
    pub c: char,
    pub fg: u32,
    pub bg: u32,
}

/// The mathematical model of a terminal: the grid as a sequence of cells,
/// row-major.
pub ghost struct TermView {
    pub rows: int,
    pub cols: int,
    pub grid: Seq<Cell>,
    pub cursor_x: int,
    pub cursor_y: int,
    pub cursor_visible: bool,
    pub fg: u32,
    pub bg: u32,
}

/// A blank cell in the given colors.
pub open spec fn spec_blank(fg: u32, bg: u32) -> Cell {
    Cell { c: ' ', fg, bg }
}

impl TermView {
    /// The grid invariant: positive dimensions, a full grid, the cursor on
    /// the grid (`cursor_x == cols` right after the last column is
    /// written).
    pub open spec fn wf(self) -> bool {
        &&& self.grid_wf()
        &&& 0 <= self.cursor_x <= self.cols
        &&& 0 <= self.cursor_y < self.rows
    }

    /// The grid part of the invariant alone, without the cursor bounds:
    /// what scrolling needs and preserves.
    pub open spec fn grid_wf(self) -> bool {
        &&& self.rows > 0
        &&& self.cols > 0
        &&& self.rows * self.cols <= usize::MAX
        &&& self.grid.len() == self.rows * self.cols
    }
}

/// The terminal after a reset: the grid blanked in the current colors
/// and the cursor homed.
pub open spec fn spec_term_reset(t: TermView) -> TermView {
    TermView {
        grid: Seq::new(t.grid.len(), |i: int| spec_blank(t.fg, t.bg)),
        cursor_x: 0,
        cursor_y: 0,
        ..t
    }
}

/// The grid after scrolling one row up: every row moves up and the last
/// row becomes blank.
pub open spec fn spec_scroll(t: TermView) -> TermView {
    TermView {
        grid: Seq::new(
            t.grid.len(),
            |i: int|
                if i < (t.rows - 1) * t.cols {
                    t.grid[i + t.cols]
                } else {
                    spec_blank(t.fg, t.bg)
                },
        ),
        ..t
    }
}

/// The terminal after a line feed: the cursor moves to the start of the
/// next row, scrolling when it was on the last row.
pub open spec fn spec_new_line(t: TermView) -> TermView {
    if t.cursor_y + 1 >= t.rows {
        TermView { cursor_x: 0, cursor_y: t.rows - 1, ..spec_scroll(t) }
    } else {
        TermView { cursor_x: 0, cursor_y: t.cursor_y + 1, ..t }
    }
}

/// The terminal after one character is written: line feed, carriage
/// return and backspace move the cursor; anything else is stored at the
/// cursor in the current colors and advances it, wrapping first when the
/// previous write filled the row.
pub open spec fn spec_write_char(t: TermView, c: char) -> TermView {
    if c == '\n' {
        spec_new_line(t)
    } else if c == '\r' {
        TermView { cursor_x: 0, ..t }
    } else if c == '\u{8}' {
        let m = if t.cursor_x > 0 {
            TermView { cursor_x: t.cursor_x - 1, ..t }
        } else if t.cursor_y > 0 {
            TermView { cursor_x: t.cols - 1, cursor_y: t.cursor_y - 1, ..t }
        } else {
            t
        };
        let idx = m.cursor_y * m.cols + m.cursor_x;
        TermView { grid: m.grid.update(idx, Cell { c: ' ', ..m.grid[idx] }), ..m }
    } else {
        let m = if t.cursor_x >= t.cols {
            spec_new_line(t)
        } else {
            t
        };
        let idx = m.cursor_y * m.cols + m.cursor_x;
        TermView {
            grid: m.grid.update(idx, Cell { c, fg: m.fg, bg: m.bg }),
            cursor_x: m.cursor_x + 1,
            ..m
        }
    }
}

/// The terminal after every character of `s` is written, in order.
pub open spec fn spec_write_seq(t: TermView, s: Seq<char>) -> TermView
    decreases s.len(),
{
    if s.len() == 0 {
        t
    } else {
        spec_write_char(spec_write_seq(t, s.drop_last()), s.last())
    }
}

/// Writing a character preserves the grid invariant.
pub proof fn lemma_write_char_wf(t: TermView, c: char)
    requires
        t.wf(),
    ensures
        spec_write_char(t, c).wf(),
        spec_write_char(t, c).rows == t.rows,
        spec_write_char(t, c).cols == t.cols,
        spec_write_char(t, c).fg == t.fg,
        spec_write_char(t, c).bg == t.bg,
{
    lemma_row_major_bounds(t.rows, t.cols);
}

/// One cell's index lies inside the row-major grid.
proof fn lemma_cell_index(rows: int, cols: int, y: int, x: int)
    by (nonlinear_arith)
    requires
        0 <= y < rows,
        0 <= x < cols,
    ensures
        0 <= y * cols,
        y * cols + x < rows * cols,
{
}

/// A cursor position on the grid indexes inside it.
proof fn lemma_row_major_bounds(rows: int, cols: int)
    by (nonlinear_arith)
    requires
        rows > 0,
        cols > 0,
    ensures
        forall|y: int, x: int|
            0 <= y < rows && 0 <= x < cols ==> 0 <= #[trigger] (y * cols + x) < rows * cols,
{
}

/// The text terminal.
pub struct Terminal {
    pub rows: usize,
    pub cols: usize,
    pub buffer: Vec<Cell>,
    pub cursor_x: usize,
    pub cursor_y: usize,
    pub cursor_visible: bool,
    pub default_fg: u32,
    pub default_bg: u32,
}

impl View for Terminal {
    type V = TermView;

    open spec fn view(&self) -> TermView {
        TermView {
            rows: self.rows as int,
            cols: self.cols as int,
            grid: self.buffer@,
            cursor_x: self.cursor_x as int,
            cursor_y: self.cursor_y as int,
            cursor_visible: self.cursor_visible,
            fg: self.default_fg,
            bg: self.default_bg,
        }
    }
}

impl Terminal {
    pub fn new(cols: usize, rows: usize) -> (t: Terminal)
        requires
            cols > 0,
            rows > 0,
            rows * cols <= usize::MAX,
        ensures
            t@.wf(),
            t@.rows == rows,
            t@.cols == cols,
            t@.cursor_x == 0,
            t@.cursor_y == 0,
            t@.cursor_visible == false,
            t@.fg == 0xFF_FF_FF_FFu32,
            t@.bg == 0x00_00_00_FFu32,
            forall|i: int| 0 <= i < t@.grid.len() ==> t@.grid[i] == spec_blank(t@.fg, t@.bg),
    {
        let default_fg: u32 = 0xFF_FF_FF_FF;
        let default_bg: u32 = 0x00_00_00_FF;
        proof {
            assert(cols * rows == rows * cols) by (nonlinear_arith);
        }
        let buffer = vec![Cell { c: ' ', fg: default_fg, bg: default_bg }; cols * rows];
        Terminal {
            rows,
            cols,
            buffer,
            cursor_x: 0,
            cursor_y: 0,
            default_fg,
            default_bg,
            cursor_visible: false,
        }
    }

    /// Blank the whole grid in the current colors and home the cursor.
    pub fn reset(&mut self)
        requires
            old(self)@.wf(),
        ensures
            final(self)@.wf(),
            final(self)@ == spec_term_reset(old(self)@),
    {
        self.cursor_x = 0;
        self.cursor_y = 0;
        let n = self.buffer.len();
        let mut i: usize = 0;
        while i < n
            invariant
                n == self.buffer@.len(),
                i <= n,
                self.rows == old(self).rows,
                self.cols == old(self).cols,
                self.cursor_x == 0,
                self.cursor_y == 0,
                self.cursor_visible == old(self).cursor_visible,
                self.default_fg == old(self).default_fg,
                self.default_bg == old(self).default_bg,
                forall|j: int|
                    0 <= j < i ==> self.buffer@[j] == spec_blank(
                        old(self).default_fg,
                        old(self).default_bg,
                    ),
                forall|j: int| i <= j < n ==> self.buffer@[j] == old(self).buffer@[j],
            decreases n - i,
        {
            self.buffer[i] = Cell { c: ' ', fg: self.default_fg, bg: self.default_bg };
            i = i + 1;
        }
        assert(final(self)@.grid =~= Seq::new(
            old(self)@.grid.len(),
            |i: int| spec_blank(old(self)@.fg, old(self)@.bg),
        ));
    }

    /// Show or hide the cursor.
    pub fn show_cursor(&mut self, visible: bool)
        ensures
            final(self)@ == (TermView { cursor_visible: visible, ..old(self)@ }),
    {
        self.cursor_visible = visible;
    }

    /// Set the foreground color used for subsequent writes.
    pub fn set_fg_color(&mut self, color: u32)
        ensures
            final(self)@ == (TermView { fg: color, ..old(self)@ }),
    {
        self.default_fg = color;
    }

    /// Set the background color used for subsequent writes.
    pub fn set_bg_color(&mut self, color: u32)
        ensures
            final(self)@ == (TermView { bg: color, ..old(self)@ }),
    {
        self.default_bg = color;
    }

    /// Write one character, exactly as the model says.
    pub fn write_char(&mut self, c: char)
        requires
            old(self)@.wf(),
        ensures
            final(self)@.wf(),
            final(self)@ == spec_write_char(old(self)@, c),
            final(self)@.rows == old(self)@.rows,
            final(self)@.cols == old(self)@.cols,
            final(self)@.fg == old(self)@.fg,
            final(self)@.bg == old(self)@.bg,
    {
        proof {
            lemma_write_char_wf(self@, c);
            lemma_row_major_bounds(self@.rows, self@.cols);
        }
        if c == '\n' {
            self.new_line();
            return ;
        }
        if c == '\r' {
            self.cursor_x = 0;
            return ;
        }
        if c == '\u{8}' {
            if self.cursor_x > 0 {
                self.cursor_x = self.cursor_x - 1;
            } else if self.cursor_y > 0 {
                self.cursor_y = self.cursor_y - 1;
                self.cursor_x = self.cols - 1;
            }
            let idx = self.cursor_y * self.cols + self.cursor_x;
            let mut cell = self.buffer[idx];
            cell.c = ' ';
            self.buffer[idx] = cell;
            return ;
        }
        if self.cursor_x >= self.cols {
            self.new_line();
        }
        let idx = self.cursor_y * self.cols + self.cursor_x;
        self.buffer[idx] = Cell { c, fg: self.default_fg, bg: self.default_bg };
        self.cursor_x = self.cursor_x + 1;
    }

    /// Write every character of `s`, in order.
    pub fn write_str(&mut self, s: &str)
        requires
            old(self)@.wf(),
        ensures
            final(self)@.wf(),
            final(self)@ == spec_write_seq(old(self)@, s@),
            final(self)@.rows == old(self)@.rows,
            final(self)@.cols == old(self)@.cols,
            final(self)@.fg == old(self)@.fg,
            final(self)@.bg == old(self)@.bg,
    {
        let chars = crate::text::str_to_chars(s);
        let n = chars.len();
        let mut i: usize = 0;
        while i < n
            invariant
                n == chars@.len(),
                chars@ == s@,
                i <= n,
                old(self)@.wf(),
                self@ == spec_write_seq(old(self)@, s@.subrange(0, i as int)),
                self@.wf(),
                self@.rows == old(self)@.rows,
                self@.cols == old(self)@.cols,
                self@.fg == old(self)@.fg,
                self@.bg == old(self)@.bg,
            decreases n - i,
        {
            self.write_char(chars[i]);
            proof {
                assert(s@.subrange(0, i + 1).drop_last() =~= s@.subrange(0, i as int));
                assert(s@.subrange(0, i + 1).last() == s@[i as int]);
            }
            i = i + 1;
        }
        assert(s@.subrange(0, n as int) =~= s@);
    }

    /// Move to the start of the next row, scrolling on the last row.
    fn new_line(&mut self)
        requires
            old(self)@.wf(),
        ensures
            final(self)@.wf(),
            final(self)@ == spec_new_line(old(self)@),
    {
        self.cursor_x = 0;
        self.cursor_y = self.cursor_y + 1;
        if self.cursor_y >= self.rows {
            self.scroll();
            self.cursor_y = self.rows - 1;
        }
        proof {
            lemma_row_major_bounds(self@.rows, self@.cols);
        }
    }

    /// Shift every row up by one and blank the last row.
    fn scroll(&mut self)
        requires
            old(self)@.grid_wf(),
        ensures
            final(self)@.grid_wf(),
            final(self)@ == spec_scroll(old(self)@),
    {
        let rows = self.rows;
        let cols = self.cols;
        proof {
            lemma_row_major_bounds(rows as int, cols as int);
            assert((rows - 1) * cols + cols == rows * cols) by (nonlinear_arith);
        }
        let mut y: usize = 0;
        while y < rows - 1
            invariant
                self@.rows == rows,
                self@.cols == cols,
                rows > 0,
                cols > 0,
                rows * cols <= usize::MAX,
                self.buffer@.len() == rows * cols,
                y <= rows - 1,
                self.cursor_x == old(self).cursor_x,
                self.cursor_y == old(self).cursor_y,
                self.cursor_visible == old(self).cursor_visible,
                self.default_fg == old(self).default_fg,
                self.default_bg == old(self).default_bg,
                forall|i: int|
                    0 <= i < y * cols ==> #[trigger] self.buffer@[i] == old(self).buffer@[i + cols],
                forall|i: int|
                    y * cols <= i < rows * cols ==> #[trigger] self.buffer@[i] == old(
                        self,
                    ).buffer@[i],
            decreases rows - 1 - y,
        {
            let mut x: usize = 0;
            proof {
                assert(y * cols + cols <= (rows - 1) * cols + cols) by (nonlinear_arith)
                    requires
                        y <= rows - 1,
                        cols > 0,
                        y >= 0,
                ;
                assert((y + 1) * cols == y * cols + cols) by (nonlinear_arith);
            }
            while x < cols
                invariant
                    self@.rows == rows,
                    self@.cols == cols,
                    rows > 0,
                    cols > 0,
                    rows * cols <= usize::MAX,
                    self.buffer@.len() == rows * cols,
                    y < rows - 1,
                    x <= cols,
                    y * cols + cols <= rows * cols,
                    (y + 1) * cols == y * cols + cols,
                    self.cursor_x == old(self).cursor_x,
                    self.cursor_y == old(self).cursor_y,
                    self.cursor_visible == old(self).cursor_visible,
                    self.default_fg == old(self).default_fg,
                    self.default_bg == old(self).default_bg,
                    forall|i: int|
                        0 <= i < y * cols + x ==> #[trigger] self.buffer@[i] == old(
                            self,
                        ).buffer@[i + cols],
                    forall|i: int|
                        y * cols + x <= i < rows * cols ==> #[trigger] self.buffer@[i] == old(
                            self,
                        ).buffer@[i],
                decreases cols - x,
            {
                let src_idx = (y + 1) * cols + x;
                let dst_idx = y * cols + x;
                proof {
                    assert(src_idx < rows * cols) by (nonlinear_arith)
                        requires
                            y < rows - 1,
                            x < cols,
                            cols > 0,
                            rows > 0,
                            src_idx == (y + 1) * cols + x,
                    ;
                }
                self.buffer[dst_idx] = self.buffer[src_idx];
                x = x + 1;
            }
            y = y + 1;
        }
        let start = (rows - 1) * cols;
        let mut i: usize = 0;
        proof {
            assert(start + cols == rows * cols) by (nonlinear_arith)
                requires
                    rows > 0,
                    cols > 0,
                    start == (rows - 1) * cols,
            ;
        }
        while i < cols
            invariant
                self@.rows == rows,
                self@.cols == cols,
                rows > 0,
                cols > 0,
                rows * cols <= usize::MAX,
                self.buffer@.len() == rows * cols,
                i <= cols,
                start == (rows - 1) * cols,
                start + cols == rows * cols,
                self.cursor_x == old(self).cursor_x,
                self.cursor_y == old(self).cursor_y,
                self.cursor_visible == old(self).cursor_visible,
                self.default_fg == old(self).default_fg,
                self.default_bg == old(self).default_bg,
                forall|j: int|
                    0 <= j < start ==> #[trigger] self.buffer@[j] == old(self).buffer@[j + cols],
                forall|j: int|
                    start <= j < start + i ==> #[trigger] self.buffer@[j] == spec_blank(
                        old(self).default_fg,
                        old(self).default_bg,
                    ),
            decreases cols - i,
        {
            self.buffer[start + i] = Cell { c: ' ', fg: self.default_fg, bg: self.default_bg };
            i = i + 1;
        }
        assert(final(self)@.grid =~= spec_scroll(old(self)@).grid);
    }

    /// Paint the grid onto the framebuffer, 8x16 pixels per cell, and the
    /// cursor bar when visible. Only the image changes: the framebuffer
    /// keeps its dimensions.
    pub fn render(&self, gpu: &mut Gpu, offset_x: u32, offset_y: u32)
        requires
            self@.wf(),
            old(gpu).wf(),
        ensures
            final(gpu).wf(),
            final(gpu).width == old(gpu).width,
            final(gpu).height == old(gpu).height,
    {
        let char_w: u128 = 8;
        let char_h: u128 = 16;
        if offset_x > 0 {
            let rh: u128 = (self.rows as u128) * char_h;
            let rh32: i32 = if rh > 0x7FFF_FFFF {
                0x7FFF_FFFF
            } else {
                rh as i32
            };
            let ox: i32 = if (offset_x as u128) > 0x7FFF_FFFF {
                0x7FFF_FFFF
            } else {
                offset_x as i32
            };
            gpu.fill_rect(0, 0, ox, rh32, self.default_bg);
        }
        let mut y: usize = 0;
        while y < self.rows
            invariant
                self@.wf(),
                gpu.wf(),
                gpu.width == old(gpu).width,
                gpu.height == old(gpu).height,
                y <= self.rows,
            decreases self.rows - y,
        {
            let mut x: usize = 0;
            while x < self.cols
                invariant
                    self@.wf(),
                    y < self.rows,
                    gpu.wf(),
                    gpu.width == old(gpu).width,
                    gpu.height == old(gpu).height,
                    x <= self.cols,
                decreases self.cols - x,
            {
                proof {
                    lemma_cell_index(self.rows as int, self.cols as int, y as int, x as int);
                }
                let cell = self.buffer[y * self.cols + x];
                let dx: u128 = (offset_x as u128) + (x as u128) * char_w;
                let dy: u128 = (offset_y as u128) + (y as u128) * char_h;
                if dx <= 0x7FFF_FFFF && dy <= 0x7FFF_FFFF {
                    if (cell.bg & 0xFF) != 0 {
                        gpu.fill_rect(dx as i32, dy as i32, 8, 16, cell.bg);
                    }
                    if dy + 4 <= 0x7FFF_FFFF {
                        draw_char(gpu, dx as i32, (dy + 4) as i32, cell.c, cell.fg);
                    }
                }
                x = x + 1;
            }
            y = y + 1;
        }
        if self.cursor_visible {
            let cx: u128 = (offset_x as u128) + (self.cursor_x as u128) * char_w;
            let cy: u128 = (offset_y as u128) + (self.cursor_y as u128) * char_h;
            if cx <= 0x7FFF_FFFF && cy + 1 <= 0x7FFF_FFFF {
                gpu.fill_rect(cx as i32, (cy + 1) as i32, 4, 14, 0xFF_FF_FF_FF);
            }
        }
    }
}

} // verus!
