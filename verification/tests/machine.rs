use wasmix::events::{EventType, SystemEvent};
use wasmix::kernel::{AfterLoad, HostAction, Machine, MachineState};
use wasmix::sandbox::{LoadOutcome, Sandbox};

fn mouse_move(code: u32, x: i32, y: i32) -> SystemEvent {
    SystemEvent { event_type: EventType::MouseMove, code, x, y }
}

#[test]
fn event_encoding_is_little_endian() {
    let e = SystemEvent { event_type: EventType::KeyDown, code: 0x0102, x: -1, y: 3 };
    let bytes = e.encode();
    assert_eq!(bytes.len(), 16);
    assert_eq!(&bytes[0..4], &[1, 0, 0, 0]);
    assert_eq!(&bytes[4..8], &[0x02, 0x01, 0, 0]);
    assert_eq!(&bytes[8..12], &[0xFF, 0xFF, 0xFF, 0xFF]);
    assert_eq!(&bytes[12..16], &[3, 0, 0, 0]);
}

#[test]
fn three_events_poll_in_order_then_empty() {
    let mut m = Machine::new();
    m.push_event(mouse_move(0, 1, 1));
    m.push_event(mouse_move(1, 2, 2));
    m.push_event(mouse_move(2, 3, 3));
    assert_eq!(m.sys_poll_event().unwrap().code, 0);
    assert_eq!(m.sys_poll_event().unwrap().code, 1);
    assert_eq!(m.sys_poll_event().unwrap().code, 2);
    assert!(m.sys_poll_event().is_none());
}

#[test]
fn one_shot_guest_never_occupies_the_slot() {
    let mut s = Sandbox::new();
    let pid = s.fresh_pid();
    s.install(pid, false);
    assert!(s.active.is_none());
    assert!(s.next.is_none());
}

#[test]
fn resident_guest_takes_the_active_slot() {
    let mut s = Sandbox::new();
    let pid = s.fresh_pid();
    s.install(pid, true);
    assert_eq!(s.active, Some(pid));
    assert!(s.next.is_none());
}

#[test]
fn reentrant_load_is_staged_until_the_step_ends() {
    let mut s = Sandbox::new();
    let first = s.fresh_pid();
    s.install(first, true);
    assert_eq!(s.begin_step(), Some(first));
    // a load arriving while the step runs goes to the next slot
    let second = s.fresh_pid();
    s.install(second, true);
    assert_eq!(s.active, Some(first), "the active slot holds until the step returns");
    assert_eq!(s.next, Some(second));
    s.finish_step(false);
    assert_eq!(s.active, Some(second), "the staged process is promoted afterwards");
    assert!(s.next.is_none());
}

#[test]
fn trap_empties_the_slot_and_leaves_gui_mode() {
    let mut m = Machine::new();
    let pid = m.sandbox.fresh_pid();
    m.sandbox.install(pid, true);
    m.sys_enable_gui_mode();
    assert!(m.gui_mode);
    match m.tick_process() {
        HostAction::StepProcess { pid: p } => assert_eq!(p, pid),
        _ => panic!("a resident process must be stepped"),
    }
    m.finish_process_step(true);
    assert!(m.sandbox.active.is_none());
    assert!(!m.gui_mode);
}

#[test]
fn clean_step_keeps_the_process() {
    let mut m = Machine::new();
    let pid = m.sandbox.fresh_pid();
    m.sandbox.install(pid, true);
    match m.tick_process() {
        HostAction::StepProcess { .. } => {},
        _ => panic!("a resident process must be stepped"),
    }
    m.finish_process_step(false);
    assert_eq!(m.sandbox.active, Some(pid));
}

#[test]
fn guest_reset_call_rebuilds_the_machine() {
    let mut m = Machine::new();
    m.state = MachineState::Kernel;
    m.tick_count = 42;
    let pid = m.sandbox.fresh_pid();
    m.sandbox.install(pid, true);
    m.sys_enable_gui_mode();
    m.sys_reset();
    assert!(m.should_reset);
    let action = m.step(None);
    assert!(matches!(action, HostAction::Idle));
    assert_eq!(m.tick_count, 0);
    assert!(m.sandbox.active.is_none());
    assert!(!m.gui_mode);
    assert!(!m.should_reset);
    assert!(matches!(m.state, MachineState::Bios));
}

#[test]
fn boot_handoff_loads_the_target() {
    let mut m = Machine::new();
    m.fs.cd("bin").unwrap();
    m.fs.write_file("terminal.wasm", vec![7, 7]).unwrap();
    m.fs.cd("/").unwrap();
    m.push_event(mouse_move(0, 0, 0));
    let mut load = None;
    for _ in 0..260 {
        match m.step(None) {
            HostAction::LoadModule { pid, bytes } => {
                load = Some((pid, bytes));
                break;
            },
            _ => {},
        }
    }
    let (pid, bytes) = load.expect("the firmware must hand off to a boot load");
    assert_eq!(bytes, vec![7, 7]);
    assert!(matches!(m.state, MachineState::Kernel));
    // the input accumulated during boot was cleared, not replayed
    assert_eq!(m.events.len(), 0);
    // a binary with a step export becomes the resident process
    let r = m.finish_load(LoadOutcome::Ready { has_step: true });
    assert!(matches!(r, AfterLoad::Idle));
    assert_eq!(m.sandbox.active, Some(pid));
}

#[test]
fn boot_without_target_reports_the_error() {
    let mut m = Machine::new();
    let mut loaded = false;
    for _ in 0..260 {
        if let HostAction::LoadModule { .. } = m.step(None) {
            loaded = true;
        }
    }
    assert!(!loaded, "an absent boot binary must not be loaded");
    assert!(matches!(m.state, MachineState::Kernel));
}

#[test]
fn sys_exec_defers_the_nested_load() {
    let mut m = Machine::new();
    m.fs.cd("bin").unwrap();
    m.fs.write_file("child.wasm", vec![5]).unwrap();
    m.fs.cd("/").unwrap();
    // a resident guest is mid-step when it calls exec
    let parent = m.sandbox.fresh_pid();
    m.sandbox.install(parent, true);
    match m.tick_process() {
        HostAction::StepProcess { .. } => {},
        _ => panic!("a resident process must be stepped"),
    }
    let after = m.sys_exec("exec /bin/child.wasm").unwrap();
    let child = match after {
        AfterLoad::LoadModule { pid, bytes } => {
            assert_eq!(bytes, vec![5]);
            pid
        },
        _ => panic!("the nested exec must ask for a load"),
    };
    let r = m.finish_load(LoadOutcome::Ready { has_step: true });
    let output = match r {
        AfterLoad::ExecOutput { output } => output,
        _ => panic!("the exec chain must finish after the load"),
    };
    assert_eq!(output, "loading wasm (1 bytes)...\n");
    // the new process appears only after the running step returns
    assert_eq!(m.sandbox.active, Some(parent));
    assert_eq!(m.sandbox.next, Some(child));
    m.finish_process_step(false);
    assert_eq!(m.sandbox.active, Some(child));
}

#[test]
fn sys_exec_runs_plain_commands_inline() {
    let mut m = Machine::new();
    let after = m.sys_exec("mkdir made && ls").unwrap();
    match after {
        AfterLoad::ExecOutput { output } => {
            assert_eq!(output, "bin  local  made  tmp  \n");
        },
        _ => panic!("a chain without exec completes at once"),
    }
    assert!(m.sys_exec("   ").is_none());
}

#[test]
fn sys_print_captures_during_loads() {
    let mut m = Machine::new();
    m.fs.cd("bin").unwrap();
    m.fs.write_file("a.wasm", vec![1]).unwrap();
    m.fs.cd("/").unwrap();
    let after = m.sys_exec("exec /bin/a.wasm").unwrap();
    assert!(matches!(after, AfterLoad::LoadModule { .. }));
    // what the guest prints during its init lands in the capture frame
    m.sys_print("hello from init");
    let r = m.finish_load(LoadOutcome::Ready { has_step: false });
    match r {
        AfterLoad::ExecOutput { output } => {
            assert_eq!(output, "loading wasm (1 bytes)...\nhello from init\n");
        },
        _ => panic!("the exec chain must finish after the load"),
    }
    // a one-shot binary never occupies the active slot
    assert!(m.sandbox.active.is_none());
}

#[test]
fn failed_boot_load_prints_boot_error() {
    let mut m = Machine::new();
    m.fs.cd("bin").unwrap();
    m.fs.write_file("terminal.wasm", vec![0]).unwrap();
    m.fs.cd("/").unwrap();
    let mut pending = false;
    for _ in 0..260 {
        if let HostAction::LoadModule { .. } = m.step(None) {
            pending = true;
            break;
        }
    }
    assert!(pending);
    let r = m.finish_load(LoadOutcome::Invalid { message: "bad magic".to_string() });
    assert!(matches!(r, AfterLoad::Idle));
    assert!(m.sandbox.active.is_none());
    let row: String = (0..m.term.cols).map(|x| m.term.buffer[x].c).collect();
    assert!(row.trim_end().contains("boot error: failed to create module: bad magic"));
}

#[test]
fn fs_list_syscall_formats_entries() {
    let m = Machine::new();
    assert_eq!(m.sys_fs_list("/").unwrap(), "D:bin\nD:local\nD:tmp\n");
    assert_eq!(m.sys_fs_list("/bin").unwrap(), "D:..\n");
    assert!(m.sys_fs_list("/nowhere").is_none());
}

#[test]
fn getcwd_syscall_joins_the_path() {
    let mut m = Machine::new();
    assert_eq!(m.sys_fs_getcwd(), "~");
    m.fs.cd("tmp").unwrap();
    assert_eq!(m.sys_fs_getcwd(), "/tmp");
}

#[test]
fn gpu_syscalls_use_low_bytes() {
    let mut m = Machine::new();
    assert_eq!(m.sys_gpu_width(), 512);
    assert_eq!(m.sys_gpu_height(), 512);
    m.sys_gpu_clear(0x101, 2, 3);
    assert_eq!(&m.bus.gpu.buffer[0..4], &[1, 2, 3, 255]);
    m.sys_draw_rect(0, 0, 1, 1, 0x0A0B0C0D);
    assert_eq!(&m.bus.gpu.buffer[0..4], &[0x0A, 0x0B, 0x0C, 0x0D]);
}

#[test]
fn draw_text_syscall_paints_pixels() {
    let mut m = Machine::new();
    m.sys_gpu_clear(0, 0, 0);
    let before = m.bus.gpu.buffer.clone();
    m.sys_draw_text("hi", 0, 0, 0x12345678u32 as i32);
    assert_ne!(m.bus.gpu.buffer, before);
}

#[test]
fn load_errors_carry_their_prefixes() {
    let mut m = Machine::new();
    m.fs.cd("bin").unwrap();
    m.fs.write_file("t.wasm", vec![1]).unwrap();
    m.fs.cd("/").unwrap();

    let after = m.sys_exec("exec /bin/t.wasm").unwrap();
    assert!(matches!(after, AfterLoad::LoadModule { .. }));
    match m.finish_load(LoadOutcome::TrapDuringInit { message: "boom".to_string(), legacy: false }) {
        AfterLoad::ExecOutput { output } => {
            assert_eq!(output, "loading wasm (1 bytes)...\nexec crash: init error: boom\n");
        },
        _ => panic!("the exec chain must finish after the failed load"),
    }

    let after = m.sys_exec("exec /bin/t.wasm").unwrap();
    assert!(matches!(after, AfterLoad::LoadModule { .. }));
    match m.finish_load(LoadOutcome::TrapDuringInit { message: "boom".to_string(), legacy: true }) {
        AfterLoad::ExecOutput { output } => {
            assert_eq!(output, "loading wasm (1 bytes)...\nexec crash: start error: boom\n");
        },
        _ => panic!("the exec chain must finish after the failed load"),
    }

    let after = m.sys_exec("exec /bin/t.wasm").unwrap();
    assert!(matches!(after, AfterLoad::LoadModule { .. }));
    match m.finish_load(LoadOutcome::InstantiationFailed { message: "no import".to_string() }) {
        AfterLoad::ExecOutput { output } => {
            assert_eq!(output, "loading wasm (1 bytes)...\nexec crash: failed to instantiate: no import\n");
        },
        _ => panic!("the exec chain must finish after the failed load"),
    }
    // none of the failures installed anything
    assert!(m.sandbox.active.is_none());
}

#[test]
fn typed_exec_failure_prints_crash_line() {
    let mut m = Machine::new();
    m.state = MachineState::Kernel;
    m.fs.cd("bin").unwrap();
    m.fs.write_file("a.wasm", vec![1]).unwrap();
    m.fs.cd("/").unwrap();
    for c in "exec /bin/a.wasm".chars() {
        let action = m.step(Some(c.to_string()));
        assert!(matches!(action, HostAction::Idle));
    }
    let action = m.step(Some("Enter".to_string()));
    let pid = match action {
        HostAction::LoadModule { pid, bytes } => {
            assert_eq!(bytes, vec![1]);
            pid
        },
        _ => panic!("the typed exec must request the load"),
    };
    assert_eq!(m.pending.len(), 1);
    assert_eq!(m.pending[0].pid, pid);
    let r = m.finish_load(LoadOutcome::Invalid { message: "bad magic".to_string() });
    assert!(matches!(r, AfterLoad::Idle));
    assert!(m.pending.is_empty());
    let screen: String = (0..m.term.rows)
        .map(|y| {
            (0..m.term.cols)
                .map(|x| m.term.buffer[y * m.term.cols + x].c)
                .collect::<String>()
        })
        .collect::<Vec<String>>()
        .join("\n");
    assert!(screen.contains("exec crash: failed to create module: bad magic"));
    assert!(screen.contains("user@wasmix:~$"));
}

#[test]
fn gui_mode_blocks_shell_keystrokes() {
    let mut m = Machine::new();
    m.state = MachineState::Kernel;
    m.sys_enable_gui_mode();
    m.push_event(mouse_move(9, 0, 0));
    let action = m.step(Some("x".to_string()));
    assert!(matches!(action, HostAction::Idle));
    // the shell consumed neither the key nor the queued event
    assert_eq!(m.shell.input_buffer, "");
    assert_eq!(m.events.len(), 1);
}
