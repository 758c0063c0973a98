use wasmix::bios::{Bios, BiosState};
use wasmix::hw::{Bus, Gpu, Ram};
use wasmix::term::Terminal;

fn boot_rig() -> (Bios, Terminal, Bus) {
    let bios = Bios::new();
    let term = Terminal::new(64, 32);
    let bus = Bus::new(Ram::new(1024), Gpu::new(64, 64));
    (bios, term, bus)
}

fn row_text(term: &Terminal, row: usize) -> String {
    let mut s = String::new();
    for x in 0..term.cols {
        s.push(term.buffer[row * term.cols + x].c);
    }
    s.trim_end().to_string()
}

#[test]
fn boot_times_out_to_done_in_252_ticks() {
    let (mut bios, mut term, mut bus) = boot_rig();
    for _ in 0..252 {
        let handoff = bios.step(&mut term, &mut bus, None);
        assert!(!handoff);
    }
    assert_eq!(bios.state, BiosState::Done);
    // the next tick reports the handoff exactly once per call
    assert!(bios.step(&mut term, &mut bus, None));
    assert_eq!(bios.boot_target, "/bin/terminal.wasm");
}

#[test]
fn boot_phase_boundaries() {
    let (mut bios, mut term, mut bus) = boot_rig();
    for tick in 1..=252u64 {
        bios.step(&mut term, &mut bus, None);
        match tick {
            1..=9 => assert_eq!(bios.state, BiosState::PowerOn),
            10..=109 => assert_eq!(bios.state, BiosState::MemoryTest),
            110..=250 => assert_eq!(bios.state, BiosState::WaitingForInput),
            251 => assert_eq!(bios.state, BiosState::Booting),
            _ => assert_eq!(bios.state, BiosState::Done),
        }
    }
}

#[test]
fn boot_setup_selects_desktop() {
    let (mut bios, mut term, mut bus) = boot_rig();
    for _ in 0..120 {
        bios.step(&mut term, &mut bus, None);
    }
    assert_eq!(bios.state, BiosState::WaitingForInput);
    bios.step(&mut term, &mut bus, Some("a".to_string()));
    assert_eq!(bios.state, BiosState::Setup);
    // a key that is no selector changes nothing
    bios.step(&mut term, &mut bus, Some("9".to_string()));
    assert_eq!(bios.state, BiosState::Setup);
    bios.step(&mut term, &mut bus, Some("2".to_string()));
    assert_eq!(bios.state, BiosState::Booting);
    assert_eq!(bios.ticks, 0);
    assert_eq!(bios.boot_target, "/bin/desktop.wasm");
    for _ in 0..61 {
        bios.step(&mut term, &mut bus, None);
    }
    assert_eq!(bios.state, BiosState::Done);
}

#[test]
fn boot_setup_selects_terminal() {
    let (mut bios, mut term, mut bus) = boot_rig();
    for _ in 0..115 {
        bios.step(&mut term, &mut bus, None);
    }
    bios.step(&mut term, &mut bus, Some("x".to_string()));
    bios.step(&mut term, &mut bus, Some("1".to_string()));
    assert_eq!(bios.state, BiosState::Booting);
    assert_eq!(bios.boot_target, "/bin/terminal.wasm");
}

#[test]
fn boot_banner_appears_at_tick_ten() {
    let (mut bios, mut term, mut bus) = boot_rig();
    for _ in 0..10 {
        bios.step(&mut term, &mut bus, None);
    }
    assert_eq!(row_text(&term, 0), "wasmix bios v0.1.0");
    assert_eq!(row_text(&term, 1), "copyright (c) 2026 compusophy inc.");
}

#[test]
fn memory_test_counts_in_kilobytes() {
    let (mut bios, mut term, mut bus) = boot_rig();
    for _ in 0..20 {
        bios.step(&mut term, &mut bus, None);
    }
    // at tick 20 the counter shows (20 - 10) * 16384 / 100 = 1638
    assert_eq!(row_text(&term, 6), "memory test: 1638 kb ok");
}
