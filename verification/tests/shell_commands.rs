use wasmix::fs::FileSystem;
use wasmix::shell::{ChainStatus, CmdResult, Shell};

#[test]
fn unknown_command_reports_error() {
    let mut sh = Shell::new();
    let mut fs = FileSystem::new(10);
    let (res, out, load) = sh.run_one_command("frobnicate", &mut fs, 0, 0);
    assert_eq!(res, CmdResult::Error);
    assert_eq!(out, "unknown command: frobnicate\n");
    assert!(load.is_none());
}

#[test]
fn empty_command_succeeds_silently() {
    let mut sh = Shell::new();
    let mut fs = FileSystem::new(10);
    let (res, out, load) = sh.run_one_command("", &mut fs, 0, 0);
    assert_eq!(res, CmdResult::Success);
    assert_eq!(out, "");
    assert!(load.is_none());
}

#[test]
fn help_lists_the_vocabulary() {
    let mut sh = Shell::new();
    let mut fs = FileSystem::new(10);
    let (res, out, _) = sh.run_one_command("help", &mut fs, 0, 0);
    assert_eq!(res, CmdResult::Success);
    assert!(out.starts_with("available commands:\n"));
    assert!(out.contains("exec     - execute wasm binary"));
}

#[test]
fn ls_prints_names_with_gaps() {
    let mut sh = Shell::new();
    let mut fs = FileSystem::new(10);
    let (res, out, _) = sh.run_one_command("ls", &mut fs, 0, 0);
    assert_eq!(res, CmdResult::Success);
    assert_eq!(out, "bin  local  tmp  \n");
}

#[test]
fn uptime_formats_whole_seconds() {
    let mut sh = Shell::new();
    let mut fs = FileSystem::new(10);
    let (_, out, _) = sh.run_one_command("uptime", &mut fs, 120, 0);
    assert_eq!(out, "uptime: 2 seconds (120 ticks)\n");
    let (_, out, _) = sh.run_one_command("uptime", &mut fs, 59, 0);
    assert_eq!(out, "uptime: 0 seconds (59 ticks)\n");
}

#[test]
fn df_reports_kilobytes() {
    let mut sh = Shell::new();
    let mut fs = FileSystem::new(10);
    let (_, out, _) = sh.run_one_command("df", &mut fs, 0, 0);
    assert_eq!(
        out,
        "disk usage:\n  used: 12 kb\n  total: 10240 kb\n  free: 10228 kb\n"
    );
}

#[test]
fn sysinfo_reports_rate_and_ticks() {
    let mut sh = Shell::new();
    let mut fs = FileSystem::new(10);
    let (_, out, _) = sh.run_one_command("sysinfo", &mut fs, 777, 60);
    assert!(out.contains("wasm-32 virtual core @ 60 hz"));
    assert!(out.contains("ticks:   777"));
}

#[test]
fn cd_updates_the_prompt_path() {
    let mut sh = Shell::new();
    let mut fs = FileSystem::new(10);
    let (res, _, _) = sh.run_one_command("cd bin", &mut fs, 0, 0);
    assert_eq!(res, CmdResult::Success);
    assert_eq!(sh.current_path, "/bin");
    let (res, _, _) = sh.run_one_command("cd", &mut fs, 0, 0);
    assert_eq!(res, CmdResult::Success);
    assert_eq!(sh.current_path, "~");
}

#[test]
fn cd_resolves_wildcards() {
    let mut sh = Shell::new();
    let mut fs = FileSystem::new(10);
    let (res, _, _) = sh.run_one_command("cd loc*", &mut fs, 0, 0);
    assert_eq!(res, CmdResult::Success);
    assert_eq!(fs.current_path, vec!["local"]);
}

#[test]
fn reboot_verdict_is_reboot() {
    let mut sh = Shell::new();
    let mut fs = FileSystem::new(10);
    let (res, out, _) = sh.run_one_command("reboot", &mut fs, 0, 0);
    assert_eq!(res, CmdResult::Reboot);
    assert_eq!(out, "");
}

#[test]
fn reset_asks_for_confirmation() {
    let mut sh = Shell::new();
    let mut fs = FileSystem::new(10);
    let (res, out, _) = sh.run_one_command("reset", &mut fs, 0, 0);
    assert_eq!(res, CmdResult::Success);
    assert!(out.contains("are you sure? (y/n)"));
    assert!(sh.waiting_for_reset);
}

#[test]
fn exec_reports_missing_files() {
    let mut sh = Shell::new();
    let mut fs = FileSystem::new(10);
    let (res, out, load) = sh.run_one_command("exec nothing.wasm", &mut fs, 0, 0);
    assert_eq!(res, CmdResult::Error);
    assert_eq!(out, "error: file 'nothing.wasm' not found\n");
    assert!(load.is_none());
    let (res, out, _) = sh.run_one_command("exec bin", &mut fs, 0, 0);
    assert_eq!(res, CmdResult::Error);
    assert_eq!(out, "error: 'bin' is a directory\n");
    let (res, out, _) = sh.run_one_command("exec", &mut fs, 0, 0);
    assert_eq!(res, CmdResult::Error);
    assert_eq!(out, "usage: exec <path>\n");
}

#[test]
fn exec_hands_out_the_binary() {
    let mut sh = Shell::new();
    let mut fs = FileSystem::new(10);
    fs.cd("bin").unwrap();
    fs.write_file("app.wasm", vec![0, 97, 115, 109]).unwrap();
    fs.cd("/").unwrap();
    let (res, out, load) = sh.run_one_command("exec /bin/app.wasm", &mut fs, 0, 0);
    assert_eq!(res, CmdResult::Success);
    assert_eq!(out, "loading wasm (4 bytes)...\n");
    assert_eq!(load.unwrap(), vec![0, 97, 115, 109]);
}

#[test]
fn chain_runs_left_to_right() {
    let mut sh = Shell::new();
    let mut fs = FileSystem::new(10);
    let run = sh.execute_string("mkdir x && cd x && ls", &mut fs, 0, 0);
    assert!(matches!(run.status, ChainStatus::Done { reboot: false }));
    // mkdir and cd are silent; ls of the fresh directory prints only
    // the line break
    assert_eq!(run.output, "\n");
    assert_eq!(fs.current_path, vec!["x"]);
}

#[test]
fn chain_stops_at_the_first_error() {
    let mut sh = Shell::new();
    let mut fs = FileSystem::new(10);
    let run = sh.execute_string("cd missing && ls", &mut fs, 0, 0);
    assert!(matches!(run.status, ChainStatus::Done { reboot: false }));
    // `ls` never ran: the output is the failing `cd`'s error line alone
    assert_eq!(run.output, "error: Directory not found\n");
    assert_eq!(fs.current_path, Vec::<String>::new());
}

#[test]
fn chain_records_reboot_and_goes_on() {
    let mut sh = Shell::new();
    let mut fs = FileSystem::new(10);
    let run = sh.execute_string("reboot && mkdir y", &mut fs, 0, 0);
    assert!(matches!(run.status, ChainStatus::Done { reboot: true }));
    assert!(run.output.contains("System Rebooting..."));
    assert!(fs.list_dir().contains(&"y".to_string()));
}

#[test]
fn chain_pauses_on_exec_and_resumes() {
    let mut sh = Shell::new();
    let mut fs = FileSystem::new(10);
    fs.cd("bin").unwrap();
    fs.write_file("app.wasm", vec![9]).unwrap();
    fs.cd("/").unwrap();
    let run = sh.execute_string("exec /bin/app.wasm && mkdir after", &mut fs, 0, 0);
    let resume = match run.status {
        ChainStatus::NeedLoad { bytes, resume } => {
            assert_eq!(bytes, vec![9]);
            resume
        },
        ChainStatus::Done { .. } => panic!("the chain must pause on the load"),
    };
    assert!(!fs.list_dir().contains(&"after".to_string()));
    let rest = sh.resume_chain(resume, Ok("hi\n".to_string()), &mut fs, 0, 0);
    assert!(matches!(rest.status, ChainStatus::Done { reboot: false }));
    assert_eq!(rest.output, "hi\n");
    assert!(fs.list_dir().contains(&"after".to_string()));
}

#[test]
fn failed_load_stops_the_chain() {
    let mut sh = Shell::new();
    let mut fs = FileSystem::new(10);
    fs.cd("bin").unwrap();
    fs.write_file("bad.wasm", vec![1]).unwrap();
    fs.cd("/").unwrap();
    let run = sh.execute_string("exec /bin/bad.wasm && mkdir after", &mut fs, 0, 0);
    let resume = match run.status {
        ChainStatus::NeedLoad { resume, .. } => resume,
        ChainStatus::Done { .. } => panic!("the chain must pause on the load"),
    };
    let rest = sh.resume_chain(
        resume,
        Err("failed to create module: bad magic".to_string()),
        &mut fs,
        0,
        0,
    );
    assert!(matches!(rest.status, ChainStatus::Done { reboot: false }));
    assert_eq!(rest.output, "exec crash: failed to create module: bad magic\n");
    assert!(!fs.list_dir().contains(&"after".to_string()));
}
