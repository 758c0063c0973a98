//! The kernel's line shell: a prompt, line editing with history, a fixed
//! command vocabulary, `&&` command chains that short-circuit on error,
//! and the `exec` verb that reads a binary out of the filesystem and
//! hands it to the sandbox loader.

use vstd::prelude::*;
use crate::term::Terminal;
use crate::term::TermView;
use crate::term::spec_write_seq;
use crate::fs::FileSystem;
use crate::fs::NodeView;
use crate::fs::NodeType;
use crate::fs::spec_starts_with;
use crate::fs::spec_match_entry;
use crate::fs::spec_path_view;
use crate::fs::spec_tree_insert;
use crate::fs::spec_tree_remove;
use crate::fs::spec_dir_view;
use crate::fs::spec_file_view;
use crate::fs::str_starts_with;
use crate::text::spec_dec_digits;
use crate::text::spec_trim;
use crate::text::spec_words;
use crate::text::str_to_chars;
use crate::text::chars_to_string;
use crate::text::trim_chars;
use crate::text::split_chain;
use crate::text::split_words;
use crate::text::chars_eq_str;
use crate::text::copy_range;
use crate::text::push_dec;

verus! {

/// What one command asks the machine to do next.
#[derive(Clone, Copy, Debug, PartialEq, Eq, Structural)]
pub enum CmdResult {
    Success,
    Error,
    Reboot,
    Clear,
}

/// A command chain paused in the middle: the pieces not yet run, and
/// whether an earlier piece asked for a reboot.
pub struct ChainState {
    pub commands: Vec<String>,
    pub reboot: bool,
}

/// How a chain run ended: completed, or paused because a guest binary
/// must be loaded before the chain can go on.
pub enum ChainStatus {
    Done { reboot: bool },
    NeedLoad { bytes: Vec<u8>, resume: ChainState },
}

/// A chain run's collected text plus how it ended.
pub struct ShellRun {
    pub output: String,
    pub status: ChainStatus,
}

/// A shell exactly as `Shell::new` builds it: empty line, home prompt,
/// no history, no pending confirmation.
pub open spec fn spec_shell_fresh(sh: Shell) -> bool {
    &&& sh.input_buffer@.len() == 0
    &&& sh.current_path@ == "~"@
    &&& sh.history@.len() == 0
    &&& sh.history_index is None
    &&& !sh.waiting_for_reset
}

/// The line shell.
pub struct Shell {
    pub input_buffer: String,
    pub current_path: String,
    pub history: Vec<String>,
    pub history_index: Option<usize>,
    pub waiting_for_reset: bool,
}

/// The path components joined with a leading slash before each.
pub open spec fn spec_join_path(p: Seq<Seq<char>>) -> Seq<char>
    decreases p.len(),
{
    if p.len() == 0 {
        Seq::empty()
    } else {
        spec_join_path(p.drop_last()) + seq!['/'] + p.last()
    }
}

/// The prompt's path text: `~` at the root, else the joined path.
pub open spec fn spec_prompt_path(p: Seq<Seq<char>>) -> Seq<char> {
    if p.len() == 0 {
        "~"@
    } else {
        spec_join_path(p)
    }
}

/// The terminal after the colored prompt is written.
pub open spec fn spec_prompt_write(t: TermView, path: Seq<char>) -> TermView {
    let t1 = spec_write_seq(TermView { fg: 0xFF_A5_00_FFu32, ..t }, "user"@);
    let t2 = spec_write_seq(TermView { fg: 0xFF_FF_FF_FFu32, ..t1 }, "@"@);
    let t3 = spec_write_seq(TermView { fg: 0x00_FF_00_FFu32, ..t2 }, "wasmix"@);
    let t4 = spec_write_seq(TermView { fg: 0xFF_FF_FF_FFu32, ..t3 }, ":"@);
    let t5 = spec_write_seq(t4, path);
    spec_write_seq(t5, "$ "@)
}

/// The text of the help listing.
pub open spec fn spec_help_text() -> Seq<char> {
    "available commands:\n"@ + "  help     - show this help\n"@
        + "  clear    - clear screen\n"@ + "  ls       - list files\n"@
        + "  cd       - change directory\n"@ + "  mkdir    - create directory\n"@
        + "  touch    - create file\n"@ + "  rm       - remove file/dir\n"@
        + "  df       - disk usage\n"@ + "  sysinfo  - system information\n"@
        + "  reboot   - reboot system\n"@ + "  uptime   - system uptime\n"@
        + "  reset    - factory reset (wipe data)\n"@ + "  exec     - execute wasm binary\n"@
}

/// Directory names laid out as `ls` prints them: each followed by two
/// spaces.
pub open spec fn spec_names_concat(names: Seq<Seq<char>>) -> Seq<char>
    decreases names.len(),
{
    if names.len() == 0 {
        Seq::empty()
    } else {
        spec_names_concat(names.drop_last()) + names.last() + "  "@
    }
}

/// An `error: ...` line.
pub open spec fn spec_err_line(msg: Seq<char>) -> Seq<char> {
    "error: "@ + msg + "\n"@
}

/// The `df` report for the given accounting, in whole kilobytes.
pub open spec fn spec_df_output(used: int, total: int) -> Seq<char> {
    "disk usage:\n  used: "@ + spec_dec_digits(used / 1024) + " kb\n  total: "@ + spec_dec_digits(
        total / 1024,
    ) + " kb\n  free: "@ + spec_dec_digits(total / 1024 - used / 1024) + " kb\n"@
}

/// The `sysinfo` report.
pub open spec fn spec_sysinfo_output(ticks: int, hz: int) -> Seq<char> {
    "system information:\n  kernel:  rust webos v0.1.0\n  arch:    wasm32-unknown-unknown\n"@
        + "  cpu:     wasm-32 virtual core @ "@ + spec_dec_digits(hz)
        + " hz\n  vram:    512x512 rgba (1 mb)\n  ram:     16 mb linear\n  ticks:   "@
        + spec_dec_digits(ticks) + "\n"@
}

/// The `uptime` report, in whole seconds of 60 ticks each.
pub open spec fn spec_uptime_output(ticks: int) -> Seq<char> {
    "uptime: "@ + spec_dec_digits(ticks / 60) + " seconds ("@ + spec_dec_digits(ticks)
        + " ticks)\n"@
}

/// The node `exec` resolves a target to: an entry of the current
/// directory, or of `/bin` when the target is written `/bin/...`; only a
/// file qualifies.
pub open spec fn spec_exec_lookup(root: NodeView, cwd: NodeView, t: Seq<char>) -> Option<
    NodeView,
> {
    let cand = if cwd.child(t) is Some {
        cwd.child(t)
    } else if spec_starts_with(t, "/bin/"@) {
        match root.child("bin"@) {
            Some(b) => b.child(t.skip(5)),
            None => None,
        }
    } else {
        None
    };
    match cand {
        Some(c) => if !c.dir {
            Some(c)
        } else {
            None
        },
        None => None,
    }
}

impl Shell {
    pub fn new() -> (s: Shell)
        ensures
            s.input_buffer@ == Seq::<char>::empty(),
            s.current_path@ == "~"@,
            s.history@ =~= Seq::<String>::empty(),
            s.history_index is None,
            !s.waiting_for_reset,
    {
        let s = Shell {
            input_buffer: String::new(),
            current_path: "~".to_owned(),
            history: Vec::new(),
            history_index: None,
            waiting_for_reset: false,
        };
        s
    }

    /// Write the colored `user@wasmix:path$` prompt.
    pub fn draw_prompt(&self, term: &mut Terminal)
        requires
            old(term)@.wf(),
        ensures
            final(term)@.wf(),
            final(term)@ == spec_prompt_write(old(term)@, self.current_path@),
            final(term)@.rows == old(term)@.rows,
            final(term)@.cols == old(term)@.cols,
    {
        let orange: u32 = 0xFF_A5_00_FF;
        let green: u32 = 0x00_FF_00_FF;
        let white: u32 = 0xFF_FF_FF_FF;
        term.set_fg_color(orange);
        term.write_str("user");
        term.set_fg_color(white);
        term.write_str("@");
        term.set_fg_color(green);
        term.write_str("wasmix");
        term.set_fg_color(white);
        term.write_str(":");
        term.write_str(self.current_path.as_str());
        term.write_str("$ ");
    }

    /// Refresh the prompt path from the filesystem's current directory.
    pub fn update_prompt(&mut self, fs: &FileSystem)
        ensures
            final(self).current_path@ == spec_prompt_path(spec_path_view(fs.current_path@)),
            final(self).input_buffer == old(self).input_buffer,
            final(self).history == old(self).history,
            final(self).history_index == old(self).history_index,
            final(self).waiting_for_reset == old(self).waiting_for_reset,
    {
        let ghost pv = spec_path_view(fs.current_path@);
        if fs.current_path.len() == 0 {
            self.current_path = "~".to_owned();
            return ;
        }
        let mut p = String::new();
        let n = fs.current_path.len();
        let mut i: usize = 0;
        while i < n
            invariant
                n == fs.current_path@.len(),
                i <= n,
                pv == spec_path_view(fs.current_path@),
                p@ == spec_join_path(pv.take(i as int)),
            decreases n - i,
        {
            crate::text::push_char(&mut p, '/');
            p.append(fs.current_path[i].as_str());
            proof {
                assert(pv.take(i + 1).drop_last() =~= pv.take(i as int));
                assert(pv.take(i + 1).last() == pv[i as int]);
                assert(p@ =~= spec_join_path(pv.take(i + 1)));
            }
            i = i + 1;
        }
        proof {
            assert(pv.take(n as int) =~= pv);
        }
        self.current_path = p;
    }

    /// Run one command against the filesystem. Returns the verdict, the
    /// text the command printed, and, for a resolved `exec`, the binary
    /// the sandbox must load before the verdict is final.
    #[verifier::rlimit(80)]
    pub fn run_one_command(&mut self, cmd_str: &str, fs: &mut FileSystem, ticks: u64, hz: u64) -> (r:
        (CmdResult, String, Option<Vec<u8>>))
        requires
            old(fs).wf(),
        ensures
            final(fs).wf(),
            final(fs).total_space == old(fs).total_space,
            run_one_command_spec(
                *old(self),
                *final(self),
                *old(fs),
                *final(fs),
                cmd_str@,
                ticks as int,
                hz as int,
                r.0,
                r.1@,
                match r.2 {
                    Some(b) => Some(b@),
                    None => None,
                },
            ),
    {
        let chars = str_to_chars(cmd_str);
        let parts = split_words(&chars);
        let mut out = String::new();
        if parts.len() == 0 {
            assert(out@ =~= Seq::<char>::empty());
            return (CmdResult::Success, out, None);
        }
        let cmd = &parts[0];
        assert(cmd@ == spec_words(cmd_str@)[0]);
        if chars_eq_str(cmd, "help") {
            out.append("available commands:\n");
            out.append("  help     - show this help\n");
            out.append("  clear    - clear screen\n");
            out.append("  ls       - list files\n");
            out.append("  cd       - change directory\n");
            out.append("  mkdir    - create directory\n");
            out.append("  touch    - create file\n");
            out.append("  rm       - remove file/dir\n");
            out.append("  df       - disk usage\n");
            out.append("  sysinfo  - system information\n");
            out.append("  reboot   - reboot system\n");
            out.append("  uptime   - system uptime\n");
            out.append("  reset    - factory reset (wipe data)\n");
            out.append("  exec     - execute wasm binary\n");
            assert(out@ =~= spec_help_text());
            (CmdResult::Success, out, None)
        } else if chars_eq_str(cmd, "clear") {
            (CmdResult::Clear, out, None)
        } else if chars_eq_str(cmd, "ls") {
            let items = fs.list_dir();
            let n = items.len();
            let mut i: usize = 0;
            let ghost names = fs.cwd_dir().child_names();
            while i < n
                invariant
                    n == items@.len(),
                    i <= n,
                    items@.map_values(|s: String| s@) == names,
                    out@ == spec_names_concat(names.take(i as int)),
                decreases n - i,
            {
                out.append(items[i].as_str());
                out.append("  ");
                proof {
                    assert(names.take(i + 1).drop_last() =~= names.take(i as int));
                    assert(items@.map_values(|s: String| s@)[i as int] == items@[i as int]@);
                    assert(out@ =~= spec_names_concat(names.take(i + 1)));
                }
                i = i + 1;
            }
            proof {
                assert(names.take(n as int) =~= names);
            }
            out.append("\n");
            (CmdResult::Success, out, None)
        } else if chars_eq_str(cmd, "mkdir") {
            if parts.len() < 2 {
                out.append("usage: mkdir <name>\n");
                (CmdResult::Error, out, None)
            } else {
                let name = chars_to_string(&parts[1]);
                match fs.mkdir(name.as_str()) {
                    Ok(()) => (CmdResult::Success, out, None),
                    Err(e) => {
                        out.append("error: ");
                        out.append(e.as_str());
                        out.append("\n");
                        assert(out@ =~= spec_err_line(e@));
                        (CmdResult::Error, out, None)
                    },
                }
            }
        } else if chars_eq_str(cmd, "touch") {
            if parts.len() < 2 {
                out.append("usage: touch <name>\n");
                (CmdResult::Error, out, None)
            } else {
                let name = chars_to_string(&parts[1]);
                match fs.create_file(name.as_str()) {
                    Ok(()) => (CmdResult::Success, out, None),
                    Err(e) => {
                        out.append("error: ");
                        out.append(e.as_str());
                        out.append("\n");
                        assert(out@ =~= spec_err_line(e@));
                        (CmdResult::Error, out, None)
                    },
                }
            }
        } else if chars_eq_str(cmd, "rm") {
            if parts.len() < 2 {
                out.append("usage: rm <name>\n");
                (CmdResult::Error, out, None)
            } else {
                let name = chars_to_string(&parts[1]);
                match fs.remove_entry(name.as_str()) {
                    Ok(()) => (CmdResult::Success, out, None),
                    Err(e) => {
                        out.append("error: ");
                        out.append(e.as_str());
                        out.append("\n");
                        assert(out@ =~= spec_err_line(e@));
                        (CmdResult::Error, out, None)
                    },
                }
            }
        } else if chars_eq_str(cmd, "cd") {
            if parts.len() < 2 {
                let res = fs.cd("/");
                proof {
                    assert(res is Ok);
                }
                self.update_prompt(fs);
                (CmdResult::Success, out, None)
            } else {
                let raw = chars_to_string(&parts[1]);
                let target = match fs.match_entry(raw.as_str()) {
                    Some(m) => m,
                    None => raw,
                };
                match fs.cd(target.as_str()) {
                    Ok(()) => {
                        self.update_prompt(fs);
                        (CmdResult::Success, out, None)
                    },
                    Err(e) => {
                        out.append("error: ");
                        out.append(e.as_str());
                        out.append("\n");
                        assert(out@ =~= spec_err_line(e@));
                        (CmdResult::Error, out, None)
                    },
                }
            }
        } else if chars_eq_str(cmd, "df") {
            let total_kb = fs.total_space / 1024;
            let used_kb = fs.used_space / 1024;
            out.append("disk usage:\n  used: ");
            push_dec(&mut out, used_kb as u64);
            out.append(" kb\n  total: ");
            push_dec(&mut out, total_kb as u64);
            out.append(" kb\n  free: ");
            push_dec(&mut out, (total_kb - used_kb) as u64);
            out.append(" kb\n");
            assert(out@ =~= spec_df_output(fs.used_space as int, fs.total_space as int));
            (CmdResult::Success, out, None)
        } else if chars_eq_str(cmd, "sysinfo") {
            out.append("system information:\n  kernel:  rust webos v0.1.0\n  arch:    wasm32-unknown-unknown\n");
            out.append("  cpu:     wasm-32 virtual core @ ");
            push_dec(&mut out, hz);
            out.append(" hz\n  vram:    512x512 rgba (1 mb)\n  ram:     16 mb linear\n  ticks:   ");
            push_dec(&mut out, ticks);
            out.append("\n");
            assert(out@ =~= spec_sysinfo_output(ticks as int, hz as int));
            (CmdResult::Success, out, None)
        } else if chars_eq_str(cmd, "reboot") {
            (CmdResult::Reboot, out, None)
        } else if chars_eq_str(cmd, "uptime") {
            out.append("uptime: ");
            push_dec(&mut out, ticks / 60);
            out.append(" seconds (");
            push_dec(&mut out, ticks);
            out.append(" ticks)\n");
            assert(out@ =~= spec_uptime_output(ticks as int));
            (CmdResult::Success, out, None)
        } else if chars_eq_str(cmd, "reset") {
            out.append("warning: this will wipe all local data.\nare you sure? (y/n) ");
            self.input_buffer = String::new();
            self.waiting_for_reset = true;
            (CmdResult::Success, out, None)
        } else if chars_eq_str(cmd, "exec") {
            if parts.len() < 2 {
                out.append("usage: exec <path>\n");
                (CmdResult::Error, out, None)
            } else {
                let target = chars_to_string(&parts[1]);
                let content: Option<Vec<u8>> = self.resolve_exec_target(fs, target.as_str());
                match content {
                    Some(bytes) => {
                        out.append("loading wasm (");
                        push_dec(&mut out, bytes.len() as u64);
                        out.append(" bytes)...\n");
                        assert(out@ =~= "loading wasm ("@ + spec_dec_digits(bytes@.len() as int)
                            + " bytes)...\n"@);
                        (CmdResult::Success, out, Some(bytes))
                    },
                    None => {
                        let in_cwd = {
                            let dir = match fs.resolve_dir(current_path_slice(fs)) {
                                Some(d) => d,
                                None => &fs.root,
                            };
                            dir.child_index(target.as_str()).is_some()
                        };
                        if in_cwd {
                            out.append("error: '");
                            out.append(target.as_str());
                            out.append("' is a directory\n");
                            assert(out@ =~= "error: '"@ + target@ + "' is a directory\n"@);
                            (CmdResult::Error, out, None)
                        } else {
                            out.append("error: file '");
                            out.append(target.as_str());
                            out.append("' not found\n");
                            assert(out@ =~= "error: file '"@ + target@ + "' not found\n"@);
                            (CmdResult::Error, out, None)
                        }
                    },
                }
            }
        } else {
            out.append("unknown command: ");
            let cmd_text = chars_to_string(cmd);
            out.append(cmd_text.as_str());
            out.append("\n");
            assert(out@ =~= "unknown command: "@ + spec_words(cmd_str@)[0] + "\n"@);
            (CmdResult::Error, out, None)
        }
    }

    /// The bytes `exec` should load for `target`, per the lookup rule.
    fn resolve_exec_target(&self, fs: &FileSystem, target: &str) -> (r: Option<Vec<u8>>)
        requires
            fs.wf(),
        ensures
            match r {
                Some(b) => spec_exec_lookup(fs.root@, fs.cwd_dir(), target@) matches Some(c)
                    && b@ == c.content,
                None => spec_exec_lookup(fs.root@, fs.cwd_dir(), target@) is None,
            },
    {
        let cwd = match fs.resolve_dir(current_path_slice(fs)) {
            Some(d) => d,
            None => &fs.root,
        };
        match cwd.get_child(target) {
            Some(node) => {
                match node.node_type {
                    NodeType::File => Some(node.content.clone()),
                    NodeType::Directory => None,
                }
            },
            None => {
                if str_starts_with(target, "/bin/") {
                    proof {
                        reveal_strlit("/bin/");
                    }
                    let tchars = str_to_chars(target);
                    let base_chars = copy_range(&tchars, 5, tchars.len());
                    let base = chars_to_string(&base_chars);
                    proof {
                        assert(base@ =~= target@.skip(5));
                    }
                    match fs.root.get_child("bin") {
                        Some(bin) => {
                            match bin.get_child(base.as_str()) {
                                Some(node) => {
                                    match node.node_type {
                                        NodeType::File => Some(node.content.clone()),
                                        NodeType::Directory => None,
                                    }
                                },
                                None => None,
                            }
                        },
                        None => None,
                    }
                } else {
                    None
                }
            },
        }
    }
}

/// The current path slice of `fs`, for resolving against.
fn current_path_slice<'a>(fs: &'a FileSystem) -> (r: &'a [String])
    ensures
        r@ == fs.current_path@,
{
    fs.current_path.as_slice()
}

/// What one command does: verdict, printed text, requested load, and the
/// shell and filesystem transitions, case by case over the command word.
pub open spec fn run_one_command_spec(
    sh0: Shell,
    sh1: Shell,
    fs0: FileSystem,
    fs1: FileSystem,
    cmd: Seq<char>,
    ticks: int,
    hz: int,
    res: CmdResult,
    out: Seq<char>,
    load: Option<Seq<u8>>,
) -> bool {
    let words = spec_words(cmd);
    if words.len() == 0 {
        res == CmdResult::Success && out.len() == 0 && load is None && fs1 == fs0 && sh1 == sh0
    } else {
        let c = words[0];
        if c == "help"@ {
            res == CmdResult::Success && out == spec_help_text() && load is None && fs1 == fs0
                && sh1 == sh0
        } else if c == "clear"@ {
            res == CmdResult::Clear && out.len() == 0 && load is None && fs1 == fs0 && sh1 == sh0
        } else if c == "ls"@ {
            res == CmdResult::Success && out == spec_names_concat(fs0.cwd_dir().child_names())
                + "\n"@ && load is None && fs1 == fs0 && sh1 == sh0
        } else if c == "mkdir"@ {
            load is None && sh1 == sh0 && if words.len() < 2 {
                res == CmdResult::Error && out == "usage: mkdir <name>\n"@ && fs1 == fs0
            } else {
                let name = words[1];
                if res == CmdResult::Success {
                    &&& out.len() == 0
                    &&& fs0.used_space + 4096 <= fs0.total_space
                    &&& fs0.cwd_dir().child(name) is None
                    &&& fs1.root@ == spec_tree_insert(
                        fs0.root@,
                        spec_path_view(fs0.current_path@),
                        0,
                        spec_dir_view(name),
                    )
                    &&& fs1.used_space == fs0.used_space + 4096
                    &&& fs1.current_path@ == fs0.current_path@
                } else {
                    &&& res == CmdResult::Error
                    &&& fs_unchanged(fs0, fs1)
                    &&& if fs0.used_space + 4096 > fs0.total_space {
                        out == spec_err_line("Disk full"@)
                    } else {
                        out == spec_err_line("Directory exists"@) && fs0.cwd_dir().child(
                            name,
                        ) is Some
                    }
                }
            }
        } else if c == "touch"@ {
            load is None && sh1 == sh0 && if words.len() < 2 {
                res == CmdResult::Error && out == "usage: touch <name>\n"@ && fs1 == fs0
            } else {
                let name = words[1];
                if res == CmdResult::Success {
                    &&& out.len() == 0
                    &&& fs0.used_space + 10 <= fs0.total_space
                    &&& fs0.cwd_dir().child(name) is None
                    &&& fs1.root@ == spec_tree_insert(
                        fs0.root@,
                        spec_path_view(fs0.current_path@),
                        0,
                        spec_file_view(name, Seq::<u8>::empty()),
                    )
                    &&& fs1.used_space == fs0.used_space + 10
                    &&& fs1.current_path@ == fs0.current_path@
                } else {
                    &&& res == CmdResult::Error
                    &&& fs_unchanged(fs0, fs1)
                    &&& if fs0.used_space + 10 > fs0.total_space {
                        out == spec_err_line("Disk full"@)
                    } else {
                        out == spec_err_line("File or Directory exists"@) && fs0.cwd_dir().child(
                            name,
                        ) is Some
                    }
                }
            }
        } else if c == "rm"@ {
            load is None && sh1 == sh0 && if words.len() < 2 {
                res == CmdResult::Error && out == "usage: rm <name>\n"@ && fs1 == fs0
            } else {
                let name = words[1];
                if res == CmdResult::Success {
                    &&& out.len() == 0
                    &&& fs0.cwd_dir().child(name) is Some
                    &&& fs1.root@ == spec_tree_remove(
                        fs0.root@,
                        spec_path_view(fs0.current_path@),
                        0,
                        name,
                    )
                    &&& fs1.current_path@ == fs0.current_path@
                } else {
                    &&& res == CmdResult::Error
                    &&& fs_unchanged(fs0, fs1)
                    &&& out == spec_err_line("File or directory not found"@)
                    &&& fs0.cwd_dir().child(name) is None
                }
            }
        } else if c == "cd"@ {
            load is None && if words.len() < 2 {
                res == CmdResult::Success && out.len() == 0 && fs1.current_path@.len() == 0
                    && fs1.root@ == fs0.root@ && prompt_refreshed(sh0, sh1, fs1)
            } else {
                let target = match spec_match_entry(fs0.cwd_dir(), words[1]) {
                    Some(m) => m,
                    None => words[1],
                };
                if res == CmdResult::Success {
                    out.len() == 0 && fs1.root@ == fs0.root@ && prompt_refreshed(sh0, sh1, fs1)
                        && (target == "/"@ || target == ".."@ || (fs0.cwd_dir().child(
                        target,
                    ) matches Some(ch) && ch.dir))
                } else {
                    res == CmdResult::Error && fs_unchanged(fs0, fs1) && sh1 == sh0 && (out
                        == spec_err_line("Not a directory"@) || out == spec_err_line(
                        "Directory not found"@,
                    ))
                }
            }
        } else if c == "df"@ {
            res == CmdResult::Success && out == spec_df_output(
                fs0.used_space as int,
                fs0.total_space as int,
            ) && load is None && fs1 == fs0 && sh1 == sh0
        } else if c == "sysinfo"@ {
            res == CmdResult::Success && out == spec_sysinfo_output(ticks, hz) && load is None
                && fs1 == fs0 && sh1 == sh0
        } else if c == "reboot"@ {
            res == CmdResult::Reboot && out.len() == 0 && load is None && fs1 == fs0 && sh1 == sh0
        } else if c == "uptime"@ {
            res == CmdResult::Success && out == spec_uptime_output(ticks) && load is None && fs1
                == fs0 && sh1 == sh0
        } else if c == "reset"@ {
            res == CmdResult::Success && out
                == "warning: this will wipe all local data.\nare you sure? (y/n) "@ && load is None
                && fs1 == fs0 && sh1.waiting_for_reset && sh1.input_buffer@.len() == 0
                && sh1.current_path == sh0.current_path && sh1.history == sh0.history
        } else if c == "exec"@ {
            fs1 == fs0 && sh1 == sh0 && if words.len() < 2 {
                res == CmdResult::Error && out == "usage: exec <path>\n"@ && load is None
            } else {
                let t = words[1];
                match spec_exec_lookup(fs0.root@, fs0.cwd_dir(), t) {
                    Some(node) => res == CmdResult::Success && load == Some(node.content) && out
                        == "loading wasm ("@ + spec_dec_digits(node.content.len() as int)
                        + " bytes)...\n"@,
                    None => res == CmdResult::Error && load is None && out == if fs0.cwd_dir()
                        .child(t) is Some {
                        "error: '"@ + t + "' is a directory\n"@
                    } else {
                        "error: file '"@ + t + "' not found\n"@
                    },
                }
            }
        } else {
            res == CmdResult::Error && out == "unknown command: "@ + c + "\n"@ && load is None
                && fs1 == fs0 && sh1 == sh0
        }
    }
}

/// The filesystem looks the same: the tree, path and accounting agree.
pub open spec fn fs_unchanged(fs0: FileSystem, fs1: FileSystem) -> bool {
    &&& fs1.root@ == fs0.root@
    &&& fs1.current_path@ == fs0.current_path@
    &&& fs1.used_space == fs0.used_space
    &&& fs1.total_space == fs0.total_space
}

/// The shell after a prompt refresh against `fs`: only the prompt path
/// changed.
pub open spec fn prompt_refreshed(sh0: Shell, sh1: Shell, fs: FileSystem) -> bool {
    &&& sh1.current_path@ == spec_prompt_path(spec_path_view(fs.current_path@))
    &&& sh1.input_buffer == sh0.input_buffer
    &&& sh1.history == sh0.history
    &&& sh1.history_index == sh0.history_index
    &&& sh1.waiting_for_reset == sh0.waiting_for_reset
}

/// How a run of chain pieces behaves, piece by piece from the front:
/// each piece is trimmed and run as one command and its text collected;
/// the chain stops at the first failing piece, a reboot verdict appends
/// its announcement and goes on with the reboot recorded, and a piece
/// that asks for a binary pauses the chain, carrying the remaining
/// pieces and the reboot flag.
pub open spec fn chain_run_spec(
    sh0: Shell,
    sh1: Shell,
    fs0: FileSystem,
    fs1: FileSystem,
    pieces: Seq<Seq<char>>,
    reboot0: bool,
    ticks: int,
    hz: int,
    out: Seq<char>,
    status: ChainStatus,
) -> bool
    decreases pieces.len(),
{
    if pieces.len() == 0 {
        &&& sh1 == sh0
        &&& fs1 == fs0
        &&& out.len() == 0
        &&& (status matches ChainStatus::Done { reboot } && reboot == reboot0)
    } else {
        exists|
            sh_mid: Shell,
            fs_mid: FileSystem,
            res: CmdResult,
            o: Seq<char>,
            load: Option<Seq<u8>>,
        |
            {
                &&& #[trigger] run_one_command_spec(
                    sh0,
                    sh_mid,
                    fs0,
                    fs_mid,
                    spec_trim(pieces.first()),
                    ticks,
                    hz,
                    res,
                    o,
                    load,
                )
                &&& match load {
                    Some(b) => sh1 == sh_mid && fs1 == fs_mid && out == o && (status
                        matches ChainStatus::NeedLoad { bytes, resume } && bytes@ == b
                        && resume.commands@.map_values(|p: String| p@) == pieces.drop_first()
                        && resume.reboot == reboot0),
                    None => if res == CmdResult::Error {
                        sh1 == sh_mid && fs1 == fs_mid && out == o && (status
                            matches ChainStatus::Done { reboot } && reboot == reboot0)
                    } else {
                        let prefix = if res == CmdResult::Reboot {
                            o + "System Rebooting...\n"@
                        } else {
                            o
                        };
                        &&& out.len() >= prefix.len()
                        &&& out.subrange(0, prefix.len() as int) == prefix
                        &&& chain_run_spec(
                            sh_mid,
                            sh1,
                            fs_mid,
                            fs1,
                            pieces.drop_first(),
                            reboot0 || res == CmdResult::Reboot,
                            ticks,
                            hz,
                            out.skip(prefix.len() as int),
                            status,
                        )
                    },
                }
            }
    }
}

/// One step of the chain law: a first piece that neither fails nor
/// pauses, followed by a conforming run of the rest, is a conforming
/// run of the whole.
#[verifier::spinoff_prover]
#[verifier::rlimit(50)]
proof fn lemma_chain_cons(
    sh0: Shell,
    sh_mid: Shell,
    sh1: Shell,
    fs0: FileSystem,
    fs_mid: FileSystem,
    fs1: FileSystem,
    pieces: Seq<Seq<char>>,
    reboot0: bool,
    ticks: int,
    hz: int,
    res: CmdResult,
    o: Seq<char>,
    out_rest: Seq<char>,
    out: Seq<char>,
    status: ChainStatus,
)
    requires
        pieces.len() > 0,
        run_one_command_spec(
            sh0,
            sh_mid,
            fs0,
            fs_mid,
            spec_trim(pieces.first()),
            ticks,
            hz,
            res,
            o,
            Option::<Seq<u8>>::None,
        ),
        res != CmdResult::Error,
        chain_run_spec(
            sh_mid,
            sh1,
            fs_mid,
            fs1,
            pieces.drop_first(),
            reboot0 || res == CmdResult::Reboot,
            ticks,
            hz,
            out_rest,
            status,
        ),
        out == (if res == CmdResult::Reboot {
            o + "System Rebooting...\n"@
        } else {
            o
        }) + out_rest,
    ensures
        chain_run_spec(sh0, sh1, fs0, fs1, pieces, reboot0, ticks, hz, out, status),
{
    let prefix = if res == CmdResult::Reboot {
        o + "System Rebooting...\n"@
    } else {
        o
    };
    assert(out.subrange(0, prefix.len() as int) =~= prefix);
    assert(out.skip(prefix.len() as int) =~= out_rest);
    assert(chain_run_spec(
        sh_mid,
        sh1,
        fs_mid,
        fs1,
        pieces.drop_first(),
        reboot0 || res == CmdResult::Reboot,
        ticks,
        hz,
        out.skip(prefix.len() as int),
        status,
    ));
}

/// How the terminal-writing chain runner behaves, piece by piece: each
/// piece is trimmed and run as one command and its text written to the
/// terminal; `clear` resets the screen, the chain stops at the first
/// failing piece, a reboot verdict ends it at once with a true result,
/// and a piece that asks for a binary pauses the chain.
pub open spec fn term_chain_run_spec(
    sh0: Shell,
    sh1: Shell,
    fs0: FileSystem,
    fs1: FileSystem,
    t0: TermView,
    t1: TermView,
    pieces: Seq<Seq<char>>,
    ticks: int,
    hz: int,
    status: ChainStatus,
) -> bool
    decreases pieces.len(),
{
    if pieces.len() == 0 {
        &&& sh1 == sh0
        &&& fs1 == fs0
        &&& t1 == t0
        &&& (status matches ChainStatus::Done { reboot } && !reboot)
    } else {
        exists|
            sh_mid: Shell,
            fs_mid: FileSystem,
            res: CmdResult,
            o: Seq<char>,
            load: Option<Seq<u8>>,
        |
            {
                &&& #[trigger] run_one_command_spec(
                    sh0,
                    sh_mid,
                    fs0,
                    fs_mid,
                    spec_trim(pieces.first()),
                    ticks,
                    hz,
                    res,
                    o,
                    load,
                )
                &&& match load {
                    Some(b) => sh1 == sh_mid && fs1 == fs_mid && t1 == spec_write_seq(t0, o) && (
                    status matches ChainStatus::NeedLoad { bytes, resume } && bytes@ == b
                        && resume.commands@.map_values(|p: String| p@) == pieces.drop_first()
                        && !resume.reboot),
                    None => if res == CmdResult::Error {
                        sh1 == sh_mid && fs1 == fs_mid && t1 == spec_write_seq(t0, o) && (status
                            matches ChainStatus::Done { reboot } && !reboot)
                    } else if res == CmdResult::Reboot {
                        sh1 == sh_mid && fs1 == fs_mid && t1 == spec_write_seq(t0, o) && (status
                            matches ChainStatus::Done { reboot } && reboot)
                    } else {
                        term_chain_run_spec(
                            sh_mid,
                            sh1,
                            fs_mid,
                            fs1,
                            if res == CmdResult::Clear {
                                crate::term::spec_term_reset(spec_write_seq(t0, o))
                            } else {
                                spec_write_seq(t0, o)
                            },
                            t1,
                            pieces.drop_first(),
                            ticks,
                            hz,
                            status,
                        )
                    },
                }
            }
    }
}

/// One step of the terminal chain law, mirroring `lemma_chain_cons`.
#[verifier::spinoff_prover]
proof fn lemma_term_chain_cons(
    sh0: Shell,
    sh_mid: Shell,
    sh1: Shell,
    fs0: FileSystem,
    fs_mid: FileSystem,
    fs1: FileSystem,
    t0: TermView,
    t_next: TermView,
    t1: TermView,
    pieces: Seq<Seq<char>>,
    ticks: int,
    hz: int,
    res: CmdResult,
    o: Seq<char>,
    status: ChainStatus,
)
    requires
        pieces.len() > 0,
        run_one_command_spec(
            sh0,
            sh_mid,
            fs0,
            fs_mid,
            spec_trim(pieces.first()),
            ticks,
            hz,
            res,
            o,
            Option::<Seq<u8>>::None,
        ),
        res == CmdResult::Success || res == CmdResult::Clear,
        t_next == if res == CmdResult::Clear {
            crate::term::spec_term_reset(spec_write_seq(t0, o))
        } else {
            spec_write_seq(t0, o)
        },
        term_chain_run_spec(sh_mid, sh1, fs_mid, fs1, t_next, t1, pieces.drop_first(), ticks, hz, status),
    ensures
        term_chain_run_spec(sh0, sh1, fs0, fs1, t0, t1, pieces, ticks, hz, status),
{
    assert(term_chain_run_spec(
        sh_mid,
        sh1,
        fs_mid,
        fs1,
        if res == CmdResult::Clear {
            crate::term::spec_term_reset(spec_write_seq(t0, o))
        } else {
            spec_write_seq(t0, o)
        },
        t1,
        pieces.drop_first(),
        ticks,
        hz,
        status,
    ));
}

/// How one typed line behaves: nothing at all for a blank line, else
/// the terminal-writing chain run of its `&&` pieces.
pub open spec fn line_run_spec(
    sh0: Shell,
    sh1: Shell,
    fs0: FileSystem,
    fs1: FileSystem,
    t0: TermView,
    t1: TermView,
    line: Seq<char>,
    ticks: int,
    hz: int,
    status: ChainStatus,
) -> bool {
    let t = spec_trim(line);
    if t.len() == 0 {
        sh1 == sh0 && fs1 == fs0 && t1 == t0 && (status matches ChainStatus::Done { reboot }
            && !reboot)
    } else {
        term_chain_run_spec(
            sh0,
            sh1,
            fs0,
            fs1,
            t0,
            t1,
            crate::text::spec_split_chain(t),
            ticks,
            hz,
            status,
        )
    }
}

/// The shell after the enter key records the line: the line joins the
/// history (unless blank) and the history walk restarts; nothing else
/// moves yet.
pub open spec fn spec_history_recorded(sh0: Shell, sh1: Shell) -> bool {
    &&& sh1.input_buffer == sh0.input_buffer
    &&& sh1.current_path == sh0.current_path
    &&& sh1.waiting_for_reset == sh0.waiting_for_reset
    &&& if spec_trim(sh0.input_buffer@).len() > 0 {
        &&& sh1.history@.len() == sh0.history@.len() + 1
        &&& (sh1.history@.last())@ == sh0.input_buffer@
        &&& (forall|i: int| 0 <= i < sh0.history@.len() ==> sh1.history@[i] == sh0.history@[i])
        &&& sh1.history_index is None
    } else {
        sh1.history == sh0.history && sh1.history_index == sh0.history_index
    }
}

/// The shell with only its input line cleared.
pub open spec fn spec_buffer_cleared(sh0: Shell, sh1: Shell) -> bool {
    &&& sh1.input_buffer@.len() == 0
    &&& sh1.current_path == sh0.current_path
    &&& sh1.history == sh0.history
    &&& sh1.history_index == sh0.history_index
    &&& sh1.waiting_for_reset == sh0.waiting_for_reset
}

/// What the enter key does with the buffered line: the line feed is
/// echoed, the line joins the history, its chain runs against the
/// terminal, the input line clears, and the verdict carries the chain's
/// outcome — a fresh prompt on completion, the load request on a pause.
#[verifier::opaque]
pub open spec fn enter_run_spec(
    sh0: Shell,
    sh1: Shell,
    fs0: FileSystem,
    fs1: FileSystem,
    t0: TermView,
    t2: TermView,
    ticks: int,
    hz: int,
    r: KeyOutcome,
) -> bool {
    let t1 = crate::term::spec_write_char(t0, '\n');
    exists|sh_in: Shell, sh_run: Shell, t_run: TermView, st: ChainStatus|
        {
            &&& #[trigger] line_run_spec(
                sh_in,
                sh_run,
                fs0,
                fs1,
                t1,
                t_run,
                sh0.input_buffer@,
                ticks,
                hz,
                st,
            )
            &&& spec_history_recorded(sh0, sh_in)
            &&& spec_buffer_cleared(sh_run, sh1)
            &&& match st {
                ChainStatus::Done { reboot } => t2 == spec_prompt_write(t_run, sh1.current_path@)
                    && (if reboot {
                    r is Reboot
                } else {
                    r is Handled
                }),
                ChainStatus::NeedLoad { bytes, resume } => t2 == t_run && (r
                    matches KeyOutcome::NeedLoad { bytes: b2, resume: r2 } && b2@ == bytes@
                    && r2.commands@.map_values(|p: String| p@) == resume.commands@.map_values(
                    |p: String| p@,
                ) && r2.reboot == resume.reboot),
            }
        }
}

/// What a keystroke led to.
pub enum KeyOutcome {
    /// The key was consumed; nothing further to do.
    Handled,
    /// A command asked for a reboot: the machine must rebuild itself.
    Reboot,
    /// A command chain paused on an `exec`: the host must load the given
    /// binary, then resume the chain.
    NeedLoad { bytes: Vec<u8>, resume: ChainState },
}

impl Shell {
    /// Run the pieces `pieces[start..]` of a command chain left to
    /// right, collecting their text, exactly as `chain_run_spec` says.
    fn run_chain(&mut self, pieces: &Vec<String>, start: usize, reboot0: bool, fs: &mut FileSystem, ticks: u64, hz: u64) -> (r: ShellRun)
        requires
            old(fs).wf(),
            start <= pieces@.len(),
        ensures
            final(fs).wf(),
            final(fs).total_space == old(fs).total_space,
            chain_run_spec(
                *old(self),
                *final(self),
                *old(fs),
                *final(fs),
                pieces@.map_values(|p: String| p@).skip(start as int),
                reboot0,
                ticks as int,
                hz as int,
                r.output@,
                r.status,
            ),
        decreases pieces@.len() - start,
    {
        let ghost ps = pieces@.map_values(|p: String| p@).skip(start as int);
        if start >= pieces.len() {
            let r = ShellRun { output: String::new(), status: ChainStatus::Done { reboot: reboot0 } };
            proof {
                assert(ps =~= Seq::<Seq<char>>::empty());
                assert(r.output@.len() == 0);
            }
            return r;
        }
        proof {
            assert(ps.first() == pieces@[start as int]@);
            assert(ps.drop_first() =~= pieces@.map_values(|p: String| p@).skip(start + 1));
        }
        let piece_chars = trim_chars(str_to_chars(pieces[start].as_str()));
        let piece = chars_to_string(&piece_chars);
        let (res, o, load) = self.run_one_command(piece.as_str(), fs, ticks, hz);
        let ghost sh_mid = *self;
        let ghost fs_mid = *fs;
        let ghost o_view = o@;
        if let Some(bytes) = load {
            let ghost bytes_view = bytes@;
            let mut rest: Vec<String> = Vec::new();
            let mut j: usize = start + 1;
            while j < pieces.len()
                invariant
                    start + 1 <= j <= pieces@.len(),
                    rest@.len() == j - start - 1,
                    forall|k: int|
                        0 <= k < rest@.len() ==> (#[trigger] rest@[k])@ == pieces@[start + 1 + k]@,
                decreases pieces@.len() - j,
            {
                let copy_chars = str_to_chars(pieces[j].as_str());
                rest.push(chars_to_string(&copy_chars));
                j = j + 1;
            }
            proof {
                assert(rest@.map_values(|p: String| p@) =~= ps.drop_first());
            }
            let status = ChainStatus::NeedLoad {
                bytes,
                resume: ChainState { commands: rest, reboot: reboot0 },
            };
            proof {
                assert(run_one_command_spec(
                    *old(self),
                    sh_mid,
                    *old(fs),
                    fs_mid,
                    spec_trim(ps.first()),
                    ticks as int,
                    hz as int,
                    res,
                    o_view,
                    Some(bytes_view),
                ));
                assert(chain_run_spec(
                    *old(self),
                    *self,
                    *old(fs),
                    *fs,
                    ps,
                    reboot0,
                    ticks as int,
                    hz as int,
                    o_view,
                    status,
                ));
            }
            return ShellRun { output: o, status };
        }
        match res {
            CmdResult::Error => {
                let status = ChainStatus::Done { reboot: reboot0 };
                proof {
                    assert(run_one_command_spec(
                        *old(self),
                        sh_mid,
                        *old(fs),
                        fs_mid,
                        spec_trim(ps.first()),
                        ticks as int,
                        hz as int,
                        res,
                        o_view,
                        Option::<Seq<u8>>::None,
                    ));
                    assert(chain_run_spec(
                        *old(self),
                        *self,
                        *old(fs),
                        *fs,
                        ps,
                        reboot0,
                        ticks as int,
                        hz as int,
                        o_view,
                        status,
                    ));
                }
                ShellRun { output: o, status }
            },
            CmdResult::Reboot => {
                let mut output = o;
                output.append("System Rebooting...\n");
                let rest = self.run_chain(pieces, start + 1, true, fs, ticks, hz);
                output.append(rest.output.as_str());
                proof {
                    assert(run_one_command_spec(
                        *old(self),
                        sh_mid,
                        *old(fs),
                        fs_mid,
                        spec_trim(ps.first()),
                        ticks as int,
                        hz as int,
                        res,
                        o_view,
                        Option::<Seq<u8>>::None,
                    ));
                    assert(chain_run_spec(
                        sh_mid,
                        *self,
                        fs_mid,
                        *fs,
                        ps.drop_first(),
                        reboot0 || res == CmdResult::Reboot,
                        ticks as int,
                        hz as int,
                        rest.output@,
                        rest.status,
                    ));
                    assert(output@ =~= (o_view + "System Rebooting...\n"@) + rest.output@);
                    lemma_chain_cons(
                        *old(self),
                        sh_mid,
                        *self,
                        *old(fs),
                        fs_mid,
                        *fs,
                        ps,
                        reboot0,
                        ticks as int,
                        hz as int,
                        res,
                        o_view,
                        rest.output@,
                        output@,
                        rest.status,
                    );
                }
                ShellRun { output, status: rest.status }
            },
            CmdResult::Success | CmdResult::Clear => {
                let mut output = o;
                let rest = self.run_chain(pieces, start + 1, reboot0, fs, ticks, hz);
                output.append(rest.output.as_str());
                proof {
                    assert(run_one_command_spec(
                        *old(self),
                        sh_mid,
                        *old(fs),
                        fs_mid,
                        spec_trim(ps.first()),
                        ticks as int,
                        hz as int,
                        res,
                        o_view,
                        Option::<Seq<u8>>::None,
                    ));
                    assert(chain_run_spec(
                        sh_mid,
                        *self,
                        fs_mid,
                        *fs,
                        ps.drop_first(),
                        reboot0 || res == CmdResult::Reboot,
                        ticks as int,
                        hz as int,
                        rest.output@,
                        rest.status,
                    ));
                    assert(output@ =~= o_view + rest.output@);
                    lemma_chain_cons(
                        *old(self),
                        sh_mid,
                        *self,
                        *old(fs),
                        fs_mid,
                        *fs,
                        ps,
                        reboot0,
                        ticks as int,
                        hz as int,
                        res,
                        o_view,
                        rest.output@,
                        output@,
                        rest.status,
                    );
                }
                ShellRun { output, status: rest.status }
            },
        }
    }

    /// Run a whole command line: split on `&&` and run the pieces left
    /// to right, exactly as `chain_run_spec` says of the split.
    pub fn execute_string(&mut self, full_input: &str, fs: &mut FileSystem, ticks: u64, hz: u64) -> (r: ShellRun)
        requires
            old(fs).wf(),
        ensures
            final(fs).wf(),
            final(fs).total_space == old(fs).total_space,
            spec_trim(full_input@).len() == 0 ==> r.output@.len() == 0 && (r.status matches ChainStatus::Done { reboot } && reboot == false) && *final(fs) == *old(fs) && *final(self) == *old(self),
            ({
                let t = spec_trim(full_input@);
                t.len() > 0 ==> chain_run_spec(
                    *old(self),
                    *final(self),
                    *old(fs),
                    *final(fs),
                    crate::text::spec_split_chain(t),
                    false,
                    ticks as int,
                    hz as int,
                    r.output@,
                    r.status,
                )
            }),
    {
        let chars = trim_chars(str_to_chars(full_input));
        if chars.len() == 0 {
            return ShellRun { output: String::new(), status: ChainStatus::Done { reboot: false } };
        }
        let ghost t = spec_trim(full_input@);
        let piece_vecs = split_chain(&chars);
        let mut pieces: Vec<String> = Vec::new();
        let mut j: usize = 0;
        while j < piece_vecs.len()
            invariant
                j <= piece_vecs@.len(),
                pieces@.len() == j,
                forall|k: int| 0 <= k < j ==> (#[trigger] pieces@[k])@ == piece_vecs@[k]@,
            decreases piece_vecs@.len() - j,
        {
            pieces.push(chars_to_string(&piece_vecs[j]));
            j = j + 1;
        }
        proof {
            assert(pieces@.map_values(|p: String| p@).skip(0) =~= crate::text::spec_split_chain(
                t,
            ));
        }
        self.run_chain(&pieces, 0, false, fs, ticks, hz)
    }

    /// Resume a chain paused on a load: the load's captured text (or its
    /// error line) comes first, then the remaining pieces run — unless
    /// the load failed, which stops the chain like any failing command.
    pub fn resume_chain(&mut self, st: ChainState, load_result: Result<String, String>, fs: &mut FileSystem, ticks: u64, hz: u64) -> (r: ShellRun)
        requires
            old(fs).wf(),
        ensures
            final(fs).wf(),
            final(fs).total_space == old(fs).total_space,
            load_result matches Err(e) ==> r.output@ == "exec crash: "@ + e@ + "\n"@ && (
            r.status matches ChainStatus::Done { reboot } && reboot == st.reboot) && *final(fs)
                == *old(fs) && *final(self) == *old(self),
            ({
                let cmds = st.commands@.map_values(|p: String| p@);
                load_result matches Ok(c) ==> exists|out_rest: Seq<char>|
                    {
                        &&& #[trigger] chain_run_spec(
                            *old(self),
                            *final(self),
                            *old(fs),
                            *final(fs),
                            cmds,
                            st.reboot,
                            ticks as int,
                            hz as int,
                            out_rest,
                            r.status,
                        )
                        &&& r.output@ == c@ + out_rest
                    }
            }),
    {
        match load_result {
            Ok(captured) => {
                let mut output = String::new();
                output.append(captured.as_str());
                let rest = self.run_chain(&st.commands, 0, st.reboot, fs, ticks, hz);
                output.append(rest.output.as_str());
                proof {
                    assert(st.commands@.map_values(|p: String| p@).skip(0) =~= st.commands@
                        .map_values(|p: String| p@));
                    assert(output@ =~= captured@ + rest.output@);
                }
                ShellRun { output, status: rest.status }
            },
            Err(e) => {
                let mut output = String::new();
                output.append("exec crash: ");
                output.append(e.as_str());
                output.append("\n");
                assert(output@ =~= "exec crash: "@ + e@ + "\n"@);
                ShellRun { output, status: ChainStatus::Done { reboot: st.reboot } }
            },
        }
    }

    /// Run the pieces `pieces[start..]` against the terminal, exactly as
    /// `term_chain_run_spec` says.
    fn run_chain_term(&mut self, term: &mut Terminal, pieces: &Vec<String>, start: usize, fs: &mut FileSystem, ticks: u64, hz: u64) -> (r: ChainStatus)
        requires
            old(fs).wf(),
            old(term)@.wf(),
            start <= pieces@.len(),
        ensures
            final(fs).wf(),
            final(fs).total_space == old(fs).total_space,
            final(term)@.wf(),
            final(term)@.rows == old(term)@.rows,
            final(term)@.cols == old(term)@.cols,
            term_chain_run_spec(
                *old(self),
                *final(self),
                *old(fs),
                *final(fs),
                old(term)@,
                final(term)@,
                pieces@.map_values(|p: String| p@).skip(start as int),
                ticks as int,
                hz as int,
                r,
            ),
        decreases pieces@.len() - start,
    {
        let ghost ps = pieces@.map_values(|p: String| p@).skip(start as int);
        if start >= pieces.len() {
            proof {
                assert(ps =~= Seq::<Seq<char>>::empty());
            }
            return ChainStatus::Done { reboot: false };
        }
        proof {
            assert(ps.first() == pieces@[start as int]@);
            assert(ps.drop_first() =~= pieces@.map_values(|p: String| p@).skip(start + 1));
        }
        let piece_chars = trim_chars(str_to_chars(pieces[start].as_str()));
        let piece = chars_to_string(&piece_chars);
        let (res, o, load) = self.run_one_command(piece.as_str(), fs, ticks, hz);
        let ghost sh_mid = *self;
        let ghost fs_mid = *fs;
        let ghost o_view = o@;
        term.write_str(o.as_str());
        let ghost t_after = term@;
        if let Some(bytes) = load {
            let ghost bytes_view = bytes@;
            let mut rest: Vec<String> = Vec::new();
            let mut k: usize = start + 1;
            while k < pieces.len()
                invariant
                    start + 1 <= k <= pieces@.len(),
                    rest@.len() == k - start - 1,
                    forall|j: int|
                        0 <= j < rest@.len() ==> (#[trigger] rest@[j])@ == pieces@[start + 1 + j]@,
                decreases pieces@.len() - k,
            {
                let copy_chars = str_to_chars(pieces[k].as_str());
                rest.push(chars_to_string(&copy_chars));
                k = k + 1;
            }
            proof {
                assert(rest@.map_values(|p: String| p@) =~= ps.drop_first());
            }
            let status = ChainStatus::NeedLoad {
                bytes,
                resume: ChainState { commands: rest, reboot: false },
            };
            proof {
                assert(run_one_command_spec(
                    *old(self),
                    sh_mid,
                    *old(fs),
                    fs_mid,
                    spec_trim(ps.first()),
                    ticks as int,
                    hz as int,
                    res,
                    o_view,
                    Some(bytes_view),
                ));
                assert(term_chain_run_spec(
                    *old(self),
                    *self,
                    *old(fs),
                    *fs,
                    old(term)@,
                    term@,
                    ps,
                    ticks as int,
                    hz as int,
                    status,
                ));
            }
            return status;
        }
        match res {
            CmdResult::Error => {
                let status = ChainStatus::Done { reboot: false };
                proof {
                    assert(run_one_command_spec(
                        *old(self),
                        sh_mid,
                        *old(fs),
                        fs_mid,
                        spec_trim(ps.first()),
                        ticks as int,
                        hz as int,
                        res,
                        o_view,
                        Option::<Seq<u8>>::None,
                    ));
                    assert(term_chain_run_spec(
                        *old(self),
                        *self,
                        *old(fs),
                        *fs,
                        old(term)@,
                        term@,
                        ps,
                        ticks as int,
                        hz as int,
                        status,
                    ));
                }
                status
            },
            CmdResult::Reboot => {
                let status = ChainStatus::Done { reboot: true };
                proof {
                    assert(run_one_command_spec(
                        *old(self),
                        sh_mid,
                        *old(fs),
                        fs_mid,
                        spec_trim(ps.first()),
                        ticks as int,
                        hz as int,
                        res,
                        o_view,
                        Option::<Seq<u8>>::None,
                    ));
                    assert(term_chain_run_spec(
                        *old(self),
                        *self,
                        *old(fs),
                        *fs,
                        old(term)@,
                        term@,
                        ps,
                        ticks as int,
                        hz as int,
                        status,
                    ));
                }
                status
            },
            CmdResult::Success => {
                let status = self.run_chain_term(term, pieces, start + 1, fs, ticks, hz);
                proof {
                    assert(run_one_command_spec(
                        *old(self),
                        sh_mid,
                        *old(fs),
                        fs_mid,
                        spec_trim(ps.first()),
                        ticks as int,
                        hz as int,
                        res,
                        o_view,
                        Option::<Seq<u8>>::None,
                    ));
                    lemma_term_chain_cons(
                        *old(self),
                        sh_mid,
                        *self,
                        *old(fs),
                        fs_mid,
                        *fs,
                        old(term)@,
                        t_after,
                        term@,
                        ps,
                        ticks as int,
                        hz as int,
                        res,
                        o_view,
                        status,
                    );
                }
                status
            },
            CmdResult::Clear => {
                term.reset();
                let ghost t_cleared = term@;
                let status = self.run_chain_term(term, pieces, start + 1, fs, ticks, hz);
                proof {
                    assert(run_one_command_spec(
                        *old(self),
                        sh_mid,
                        *old(fs),
                        fs_mid,
                        spec_trim(ps.first()),
                        ticks as int,
                        hz as int,
                        res,
                        o_view,
                        Option::<Seq<u8>>::None,
                    ));
                    assert(t_cleared == crate::term::spec_term_reset(t_after));
                    lemma_term_chain_cons(
                        *old(self),
                        sh_mid,
                        *self,
                        *old(fs),
                        fs_mid,
                        *fs,
                        old(term)@,
                        t_cleared,
                        term@,
                        ps,
                        ticks as int,
                        hz as int,
                        res,
                        o_view,
                        status,
                    );
                }
                status
            },
        }
    }

    /// Run the line in the input buffer against the terminal: each
    /// piece's output is written as it runs, `clear` resets the screen,
    /// the chain stops at the first error, and a reboot verdict ends it
    /// at once — exactly as `line_run_spec` says of the buffered line.
    pub fn execute_command(&mut self, term: &mut Terminal, fs: &mut FileSystem, ticks: u64, hz: u64) -> (r: ChainStatus)
        requires
            old(fs).wf(),
            old(term)@.wf(),
        ensures
            final(fs).wf(),
            final(fs).total_space == old(fs).total_space,
            final(term)@.wf(),
            final(term)@.rows == old(term)@.rows,
            final(term)@.cols == old(term)@.cols,
            line_run_spec(
                *old(self),
                *final(self),
                *old(fs),
                *final(fs),
                old(term)@,
                final(term)@,
                old(self).input_buffer@,
                ticks as int,
                hz as int,
                r,
            ),
    {
        let ghost t = spec_trim(old(self).input_buffer@);
        let chars = trim_chars(str_to_chars(self.input_buffer.as_str()));
        if chars.len() == 0 {
            return ChainStatus::Done { reboot: false };
        }
        let piece_vecs = split_chain(&chars);
        let mut pieces: Vec<String> = Vec::new();
        let mut j: usize = 0;
        while j < piece_vecs.len()
            invariant
                j <= piece_vecs@.len(),
                pieces@.len() == j,
                forall|k: int| 0 <= k < j ==> (#[trigger] pieces@[k])@ == piece_vecs@[k]@,
            decreases piece_vecs@.len() - j,
        {
            pieces.push(chars_to_string(&piece_vecs[j]));
            j = j + 1;
        }
        proof {
            assert(pieces@.map_values(|p: String| p@).skip(0) =~= crate::text::spec_split_chain(
                t,
            ));
        }
        self.run_chain_term(term, &pieces, 0, fs, ticks, hz)
    }

    /// Handle one keystroke: printable characters and backspace edit the
    /// input line and echo to the terminal, the arrows walk the history,
    /// and enter runs the line. During a reset confirmation only `y`
    /// confirms the wipe.
    #[verifier::spinoff_prover]
    #[verifier::rlimit(100)]
    pub fn on_key(&mut self, key: &str, term: &mut Terminal, fs: &mut FileSystem, ticks: u64, hz: u64) -> (r: KeyOutcome)
        requires
            old(fs).wf(),
            old(term)@.wf(),
        ensures
            final(fs).wf(),
            final(fs).total_space == old(fs).total_space,
            final(term)@.wf(),
            final(term)@.rows == old(term)@.rows,
            final(term)@.cols == old(term)@.cols,
            !old(self).waiting_for_reset && key@.len() == 1 ==> final(self).input_buffer@ == old(
                self,
            ).input_buffer@ + key@ && final(self).history == old(self).history && (
            r is Handled) && *final(fs) == *old(fs),
            !old(self).waiting_for_reset && key@ == "Backspace"@ ==> final(self).input_buffer@
                == if old(self).input_buffer@.len() > 0 {
                old(self).input_buffer@.drop_last()
            } else {
                old(self).input_buffer@
            } && final(self).history == old(self).history && (r is Handled) && *final(fs) == *old(
                fs,
            ),
            !old(self).waiting_for_reset && key@ == "Enter"@ ==> final(self).input_buffer@.len()
                == 0,
            old(self).waiting_for_reset && key@ == "Enter"@ ==> !final(self).waiting_for_reset
                && final(self).input_buffer@.len() == 0 && ((r is Reboot) <==> (spec_trim(
                old(self).input_buffer@,
            ) == "y"@ || spec_trim(old(self).input_buffer@) == "Y"@)),
            // the enter key runs the buffered line
            !old(self).waiting_for_reset && key@ == "Enter"@ ==> enter_run_spec(
                *old(self),
                *final(self),
                *old(fs),
                *final(fs),
                old(term)@,
                final(term)@,
                ticks as int,
                hz as int,
                r,
            ),
    {
        proof {
            reveal_strlit("Enter");
            reveal_strlit("Backspace");
            reveal_strlit("ArrowUp");
            reveal_strlit("ArrowDown");
        }
        if self.waiting_for_reset {
            if crate::text::str_eq(key, "Enter") {
                term.write_char('\n');
                let trimmed = trim_chars(str_to_chars(self.input_buffer.as_str()));
                let confirmed = chars_eq_str(&trimmed, "y") || chars_eq_str(&trimmed, "Y");
                if confirmed {
                    term.write_str("resetting to factory defaults...\n");
                    self.input_buffer = String::new();
                    self.waiting_for_reset = false;
                    KeyOutcome::Reboot
                } else {
                    term.write_str("reset cancelled.\n");
                    self.input_buffer = String::new();
                    self.waiting_for_reset = false;
                    self.draw_prompt(term);
                    KeyOutcome::Handled
                }
            } else if crate::text::str_eq(key, "Backspace") {
                if self.input_buffer.unicode_len() > 0 {
                    crate::text::pop_char(&mut self.input_buffer);
                    term.write_char('\u{8}');
                }
                KeyOutcome::Handled
            } else if key.unicode_len() == 1 {
                self.input_buffer.append(key);
                term.write_str(key);
                KeyOutcome::Handled
            } else {
                KeyOutcome::Handled
            }
        } else if crate::text::str_eq(key, "Enter") {
            term.write_char('\n');
            let ghost t1 = term@;
            let trimmed = trim_chars(str_to_chars(self.input_buffer.as_str()));
            if trimmed.len() > 0 {
                self.history.push(self.input_buffer.clone());
                self.history_index = None;
            }
            let ghost sh_in = *self;
            let status = self.execute_command(term, fs, ticks, hz);
            let ghost sh_run = *self;
            let ghost t_run = term@;
            let ghost st_g = status;
            proof {
                assert(line_run_spec(
                    sh_in,
                    sh_run,
                    *old(fs),
                    *fs,
                    t1,
                    t_run,
                    old(self).input_buffer@,
                    ticks as int,
                    hz as int,
                    st_g,
                ));
            }
            self.input_buffer = String::new();
            let outcome = match status {
                ChainStatus::Done { reboot } => {
                    self.draw_prompt(term);
                    if reboot {
                        KeyOutcome::Reboot
                    } else {
                        KeyOutcome::Handled
                    }
                },
                ChainStatus::NeedLoad { bytes, resume } => KeyOutcome::NeedLoad { bytes, resume },
            };
            proof {
                reveal(enter_run_spec);
                assert(enter_run_spec(
                    *old(self),
                    *self,
                    *old(fs),
                    *fs,
                    old(term)@,
                    term@,
                    ticks as int,
                    hz as int,
                    outcome,
                ));
            }
            outcome
        } else if crate::text::str_eq(key, "Backspace") {
            if self.input_buffer.unicode_len() > 0 {
                crate::text::pop_char(&mut self.input_buffer);
                term.write_char('\u{8}');
            }
            KeyOutcome::Handled
        } else if crate::text::str_eq(key, "ArrowUp") {
            if self.history.len() > 0 {
                let new_index: usize = match self.history_index {
                    Some(i) => if i > 0 {
                        i - 1
                    } else {
                        0
                    },
                    None => self.history.len() - 1,
                };
                if new_index < self.history.len() {
                    self.history_index = Some(new_index);
                    self.erase_input_echo(term);
                    let entry_chars = str_to_chars(self.history[new_index].as_str());
                    self.input_buffer = chars_to_string(&entry_chars);
                    term.write_str(self.input_buffer.as_str());
                }
            }
            KeyOutcome::Handled
        } else if crate::text::str_eq(key, "ArrowDown") {
            if let Some(i) = self.history_index {
                self.erase_input_echo(term);
                if self.history.len() > 0 && i < self.history.len() - 1 {
                    let new_index = i + 1;
                    self.history_index = Some(new_index);
                    let entry_chars = str_to_chars(self.history[new_index].as_str());
                    self.input_buffer = chars_to_string(&entry_chars);
                } else {
                    self.history_index = None;
                    self.input_buffer = String::new();
                }
                term.write_str(self.input_buffer.as_str());
            }
            KeyOutcome::Handled
        } else if key.unicode_len() == 1 {
            self.input_buffer.append(key);
            term.write_str(key);
            KeyOutcome::Handled
        } else {
            KeyOutcome::Handled
        }
    }

    /// Erase the echoed input line with backspaces.
    fn erase_input_echo(&self, term: &mut Terminal)
        requires
            old(term)@.wf(),
        ensures
            final(term)@.wf(),
            final(term)@.rows == old(term)@.rows,
            final(term)@.cols == old(term)@.cols,
    {
        let n = self.input_buffer.unicode_len();
        let mut i: usize = 0;
        while i < n
            invariant
                term@.wf(),
                term@.rows == old(term)@.rows,
                term@.cols == old(term)@.cols,
                i <= n,
            decreases n - i,
        {
            term.write_char('\u{8}');
            i = i + 1;
        }
    }
}

} // verus!
