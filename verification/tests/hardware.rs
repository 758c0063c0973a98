use wasmix::gfx::{draw_char, Context};
use wasmix::hw::{Gpu, Ram};
use wasmix::term::Terminal;

#[test]
fn ram_bytes_round_trip() {
    let mut ram = Ram::new(64);
    ram.write_u8(3, 0xAB);
    assert_eq!(ram.read_u8(3), 0xAB);
    assert_eq!(ram.read_u8(4), 0);
    // out-of-range accesses are ignored and read as zero
    ram.write_u8(64, 0xCD);
    assert_eq!(ram.read_u8(64), 0);
}

#[test]
fn ram_words_are_little_endian() {
    let mut ram = Ram::new(64);
    ram.write_u32(8, 0x1122_3344);
    assert_eq!(ram.read_u8(8), 0x44);
    assert_eq!(ram.read_u8(9), 0x33);
    assert_eq!(ram.read_u8(10), 0x22);
    assert_eq!(ram.read_u8(11), 0x11);
    assert_eq!(ram.read_u32(8), 0x1122_3344);
    // a word that would run past the end changes nothing
    ram.write_u32(62, 0xFFFF_FFFF);
    assert_eq!(ram.read_u32(62), 0);
    assert_eq!(ram.read_u8(62), 0);
}

#[test]
fn gpu_put_pixel_writes_rgba() {
    let mut gpu = Gpu::new(4, 4);
    gpu.put_pixel(1, 2, 0x11223344);
    let idx = ((2 * 4 + 1) * 4) as usize;
    assert_eq!(&gpu.buffer[idx..idx + 4], &[0x11, 0x22, 0x33, 0x44]);
    // off-screen pixels are ignored
    gpu.put_pixel(-1, 0, 0xFFFFFFFF);
    gpu.put_pixel(4, 0, 0xFFFFFFFF);
    assert_eq!(&gpu.buffer[0..4], &[255, 255, 255, 255]);
}

#[test]
fn gpu_fill_rect_clips() {
    let mut gpu = Gpu::new(4, 4);
    gpu.clear(0, 0, 0);
    gpu.fill_rect(2, 2, 10, 10, 0xFF000044);
    for y in 0..4i32 {
        for x in 0..4i32 {
            let idx = ((y * 4 + x) * 4) as usize;
            if x >= 2 && y >= 2 {
                assert_eq!(gpu.buffer[idx], 0xFF);
            } else {
                assert_eq!(gpu.buffer[idx], 0);
            }
        }
    }
}

#[test]
fn gpu_clear_fills_opaque() {
    let mut gpu = Gpu::new(3, 3);
    gpu.clear(7, 8, 9);
    for p in 0..9 {
        assert_eq!(&gpu.buffer[4 * p..4 * p + 4], &[7, 8, 9, 255]);
    }
}

#[test]
fn context_draws_like_the_gpu() {
    let mut ctx = Context::new(4, 4);
    ctx.clear(1, 2, 3);
    ctx.put_pixel(0, 0, 0xAABBCCDD);
    assert_eq!(&ctx.buffer[0..4], &[0xAA, 0xBB, 0xCC, 0xDD]);
    ctx.fill_rect(1, 1, 2, 2, 0x01020304);
    let idx = ((1 * 4 + 1) * 4) as usize;
    assert_eq!(&ctx.buffer[idx..idx + 4], &[1, 2, 3, 4]);
}

#[test]
fn draw_char_paints_the_glyph() {
    let mut gpu = Gpu::new(16, 16);
    gpu.clear(0, 0, 0);
    let before = gpu.buffer.clone();
    draw_char(&mut gpu, 0, 0, 'A', 0xFFFFFFFF);
    // the font's 'A' sets pixels inside the 8x8 box and nothing outside
    assert_ne!(gpu.buffer, before, "drawing 'A' must change the framebuffer");
    for y in 0..16i32 {
        for x in 0..16i32 {
            if x >= 8 || y >= 8 {
                let idx = ((y * 16 + x) * 4) as usize;
                assert_eq!(gpu.buffer[idx], 0);
            }
        }
    }
}

#[test]
fn draw_char_box_for_unknown_glyph() {
    let mut gpu = Gpu::new(16, 16);
    gpu.clear(0, 0, 0);
    // a code point outside the basic table draws the fallback border
    draw_char(&mut gpu, 0, 0, '\u{263A}', 0xFF000000);
    for i in 0..8i32 {
        let top = ((0 * 16 + i) * 4) as usize;
        let left = ((i * 16 + 0) * 4) as usize;
        assert_eq!(gpu.buffer[top], 0xFF);
        assert_eq!(gpu.buffer[left], 0xFF);
    }
    let inner = ((3 * 16 + 3) * 4) as usize;
    assert_eq!(gpu.buffer[inner], 0);
}

#[test]
fn terminal_writes_and_wraps() {
    let mut term = Terminal::new(4, 3);
    term.write_str("abcd");
    assert_eq!(term.buffer[0].c, 'a');
    assert_eq!(term.buffer[3].c, 'd');
    assert_eq!(term.cursor_x, 4);
    term.write_char('e');
    assert_eq!(term.cursor_y, 1);
    assert_eq!(term.buffer[4].c, 'e');
}

#[test]
fn terminal_backspace_and_carriage_return() {
    let mut term = Terminal::new(8, 2);
    term.write_str("hi");
    term.write_char('\u{8}');
    assert_eq!(term.cursor_x, 1);
    assert_eq!(term.buffer[1].c, ' ');
    term.write_str("ey\rZ");
    assert_eq!(term.cursor_x, 1);
    assert_eq!(term.buffer[0].c, 'Z');
}

#[test]
fn terminal_scrolls_on_last_row() {
    let mut term = Terminal::new(2, 2);
    term.write_str("ab");
    term.write_str("cd");
    // grid now full: a b / c d, cursor wrapped past the last row
    term.write_char('e');
    assert_eq!(term.buffer[0].c, 'c');
    assert_eq!(term.buffer[1].c, 'd');
    assert_eq!(term.buffer[2].c, 'e');
    assert_eq!(term.cursor_y, 1);
}

#[test]
fn terminal_render_keeps_dimensions() {
    let term = Terminal::new(4, 2);
    let mut gpu = Gpu::new(64, 64);
    term.render(&mut gpu, 4, 0);
    assert_eq!(gpu.width, 64);
    assert_eq!(gpu.height, 64);
    assert_eq!(gpu.buffer.len(), 64 * 64 * 4);
}
