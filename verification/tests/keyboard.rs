use wasmix::fs::FileSystem;
use wasmix::shell::{KeyOutcome, Shell};
use wasmix::term::Terminal;

fn rig() -> (Shell, Terminal, FileSystem) {
    (Shell::new(), Terminal::new(64, 32), FileSystem::new(10))
}

fn type_line(sh: &mut Shell, term: &mut Terminal, fs: &mut FileSystem, line: &str) {
    for c in line.chars() {
        let key = c.to_string();
        let out = sh.on_key(&key, term, fs, 0, 0);
        assert!(matches!(out, KeyOutcome::Handled));
    }
}

fn row_text(term: &Terminal, row: usize) -> String {
    let mut s = String::new();
    for x in 0..term.cols {
        s.push(term.buffer[row * term.cols + x].c);
    }
    s.trim_end().to_string()
}

#[test]
fn typing_echoes_and_fills_the_buffer() {
    let (mut sh, mut term, mut fs) = rig();
    type_line(&mut sh, &mut term, &mut fs, "ls");
    assert_eq!(sh.input_buffer, "ls");
    assert_eq!(row_text(&term, 0), "ls");
}

#[test]
fn backspace_erases_the_last_character() {
    let (mut sh, mut term, mut fs) = rig();
    type_line(&mut sh, &mut term, &mut fs, "lsx");
    sh.on_key("Backspace", &mut term, &mut fs, 0, 0);
    assert_eq!(sh.input_buffer, "ls");
    // backspacing an empty line is harmless
    let (mut sh2, mut term2, mut fs2) = rig();
    sh2.on_key("Backspace", &mut term2, &mut fs2, 0, 0);
    assert_eq!(sh2.input_buffer, "");
}

#[test]
fn enter_runs_the_line_and_prompts_again() {
    let (mut sh, mut term, mut fs) = rig();
    type_line(&mut sh, &mut term, &mut fs, "mkdir z");
    let out = sh.on_key("Enter", &mut term, &mut fs, 0, 0);
    assert!(matches!(out, KeyOutcome::Handled));
    assert_eq!(sh.input_buffer, "");
    assert!(fs.list_dir().contains(&"z".to_string()));
    // the second row holds the fresh prompt
    assert_eq!(row_text(&term, 1), "user@wasmix:~$");
}

#[test]
fn history_arrows_recall_old_lines() {
    let (mut sh, mut term, mut fs) = rig();
    type_line(&mut sh, &mut term, &mut fs, "ls");
    sh.on_key("Enter", &mut term, &mut fs, 0, 0);
    type_line(&mut sh, &mut term, &mut fs, "df");
    sh.on_key("Enter", &mut term, &mut fs, 0, 0);
    sh.on_key("ArrowUp", &mut term, &mut fs, 0, 0);
    assert_eq!(sh.input_buffer, "df");
    sh.on_key("ArrowUp", &mut term, &mut fs, 0, 0);
    assert_eq!(sh.input_buffer, "ls");
    sh.on_key("ArrowDown", &mut term, &mut fs, 0, 0);
    assert_eq!(sh.input_buffer, "df");
    sh.on_key("ArrowDown", &mut term, &mut fs, 0, 0);
    assert_eq!(sh.input_buffer, "");
}

#[test]
fn reboot_line_reports_reboot() {
    let (mut sh, mut term, mut fs) = rig();
    type_line(&mut sh, &mut term, &mut fs, "reboot");
    let out = sh.on_key("Enter", &mut term, &mut fs, 0, 0);
    assert!(matches!(out, KeyOutcome::Reboot));
}

#[test]
fn reset_confirmation_accepts_y() {
    let (mut sh, mut term, mut fs) = rig();
    type_line(&mut sh, &mut term, &mut fs, "reset");
    sh.on_key("Enter", &mut term, &mut fs, 0, 0);
    assert!(sh.waiting_for_reset);
    type_line(&mut sh, &mut term, &mut fs, "y");
    let out = sh.on_key("Enter", &mut term, &mut fs, 0, 0);
    assert!(matches!(out, KeyOutcome::Reboot));
    assert!(!sh.waiting_for_reset);
}

#[test]
fn reset_confirmation_declines_anything_else() {
    let (mut sh, mut term, mut fs) = rig();
    type_line(&mut sh, &mut term, &mut fs, "reset");
    sh.on_key("Enter", &mut term, &mut fs, 0, 0);
    type_line(&mut sh, &mut term, &mut fs, "n");
    let out = sh.on_key("Enter", &mut term, &mut fs, 0, 0);
    assert!(matches!(out, KeyOutcome::Handled));
    assert!(!sh.waiting_for_reset);
}

#[test]
fn typed_exec_line_pauses_on_the_load() {
    let (mut sh, mut term, mut fs) = rig();
    fs.cd("bin").unwrap();
    fs.write_file("go.wasm", vec![3, 4]).unwrap();
    fs.cd("/").unwrap();
    type_line(&mut sh, &mut term, &mut fs, "exec /bin/go.wasm");
    let out = sh.on_key("Enter", &mut term, &mut fs, 0, 0);
    match out {
        KeyOutcome::NeedLoad { bytes, resume } => {
            assert_eq!(bytes, vec![3, 4]);
            assert!(resume.commands.is_empty());
        },
        _ => panic!("the typed exec must pause on the load"),
    }
}
