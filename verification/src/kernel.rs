//! The machine: the top-level tick driver. It owns every piece of the
//! system, advances the firmware until handoff, then each tick forwards
//! input, drives the shell or the active guest, and rebuilds itself
//! wholesale when a reboot is requested.
//!
//! Running guest code is the host's job: whenever guest work is due, a
//! machine call returns a [`HostAction`] naming the module to load or the
//! process to step, and the host reports back what happened. Every
//! decision in between — slot staging, capture of printed text, command
//! chains, reboot — is made here.

use vstd::prelude::*;
use std::collections::VecDeque;
use crate::hw::Ram;
use crate::hw::Gpu;
use crate::hw::Bus;
use crate::hw::Cpu;
use crate::bios::Bios;
use crate::bios::BiosState;
use crate::bios::spec_bios_step;
use crate::bios::spec_bios_init;
use crate::term::Terminal;
use crate::term::TermView;
use crate::term::spec_write_seq;
use crate::term::spec_write_char;
use crate::shell::Shell;
use crate::shell::ChainState;
use crate::shell::ChainStatus;
use crate::shell::KeyOutcome;
use crate::shell::spec_prompt_path;
use crate::shell::spec_prompt_write;
use crate::fs::FileSystem;
use crate::fs::NodeView;
use crate::fs::spec_dir_at;
use crate::fs::spec_path_view;
use crate::fs::str_starts_with;
use crate::sandbox::Sandbox;
use crate::sandbox::LoadOutcome;
use crate::events::SystemEvent;
use crate::text::str_to_chars;
use crate::text::chars_to_string;
use crate::text::copy_range;
use crate::text::path_components;
use crate::text::spec_path_components;
use crate::gfx::draw_char;

verus! {

/// Whether the machine is still in firmware or has handed off to the
/// kernel.
#[derive(Clone, Copy, Debug, PartialEq, Eq, Structural)]
pub enum MachineState {
    Bios,
    Kernel,
}

/// What the host must do next on the machine's behalf.
pub enum HostAction {
    /// Nothing: the tick's work is done.
    Idle,
    /// Instantiate the guest binary under the given process identity,
    /// run its initialization, and report a `LoadOutcome` through
    /// `finish_load`.
    LoadModule { pid: u64, bytes: Vec<u8> },
    /// Call the step entry point of the given process and report whether
    /// it trapped through `finish_process_step`.
    StepProcess { pid: u64 },
}

/// Why a load is in flight: the firmware boot target, a shell line typed
/// at the terminal, or a guest's own `exec` syscall.
pub enum PendingKind {
    Boot,
    KeyChain { resume: ChainState },
    ExecChain { resume: ChainState, acc: String },
}

/// One load in flight: its process identity and what asked for it.
pub struct PendingLoad {
    pub pid: u64,
    pub kind: PendingKind,
}

/// What `finish_load` asks for next: nothing, another load (the resumed
/// chain hit another `exec`), or — for a guest's `exec` syscall — the
/// finished chain's collected text to hand back to the guest.
pub enum AfterLoad {
    Idle,
    LoadModule { pid: u64, bytes: Vec<u8> },
    ExecOutput { output: String },
}

/// The root aggregate: all hardware, firmware and kernel state.
pub struct Machine {
    pub cpu: Cpu,
    pub bus: Bus,
    pub bios: Bios,
    pub term: Terminal,
    pub shell: Shell,
    pub fs: FileSystem,
    pub sandbox: Sandbox,
    pub tick_count: u64,
    pub state: MachineState,
    /// True once a guest claims the framebuffer exclusively: the shell
    /// then neither draws nor consumes input.
    pub gui_mode: bool,
    /// Raised by a guest's reset or restart syscall; honored at the top
    /// of the next tick by rebuilding the whole machine.
    pub should_reset: bool,
    /// The host-owned input queue, drained by whoever owns focus.
    pub events: VecDeque<SystemEvent>,
    /// One captured-output frame per load in flight, innermost last.
    pub capture: Vec<String>,
    /// The loads in flight, innermost last.
    pub pending: Vec<PendingLoad>,
    /// The tick rate the host last measured, for `sysinfo`.
    pub hz: u64,
}

/// The listing lines for a run of children: `D:` or `F:`, the name, a
/// newline.
pub open spec fn spec_listing_entries(cs: Seq<NodeView>) -> Seq<char>
    decreases cs.len(),
{
    if cs.len() == 0 {
        Seq::empty()
    } else {
        spec_listing_entries(cs.drop_last()) + (if cs.last().dir {
            "D:"@
        } else {
            "F:"@
        }) + cs.last().name + "\n"@
    }
}

/// The full listing for a directory: a parent entry unless it is the
/// root, then one line per child.
pub open spec fn spec_dir_listing(d: NodeView, has_parent: bool) -> Seq<char> {
    (if has_parent {
        "D:..\n"@
    } else {
        Seq::empty()
    }) + spec_listing_entries(d.children)
}

/// The terminal as the kernel first shows it: blanked to black in
/// foreground `f`, cursor homed and visible.
pub open spec fn spec_fresh_kernel_screen(t0: TermView, f: u32) -> TermView {
    TermView {
        rows: t0.rows,
        cols: t0.cols,
        grid: Seq::new(t0.grid.len(), |i: int| crate::term::spec_blank(f, 0x00_00_00_FFu32)),
        cursor_x: 0,
        cursor_y: 0,
        cursor_visible: true,
        fg: f,
        bg: 0x00_00_00_FFu32,
    }
}

/// What settling a load does, by failure and by who asked. A failed
/// load fully unwinds — no slot moves, and the prefixed error line is
/// surfaced: written to the terminal for the boot target, ahead of a
/// fresh prompt for a typed chain, inside the collected text for a
/// guest's `exec`. A successful load hands the captured text to the
/// resumed chain, which may in turn pause on a further load.
#[verifier::opaque]
pub open spec fn finish_load_spec(m0: Machine, m1: Machine, outcome: LoadOutcome, r: AfterLoad) -> bool {
    let entry = m0.pending@.last();
    let captured = m0.capture@.last();
    match crate::sandbox::spec_load_error_text(outcome) {
        Some(e) => match entry.kind {
            PendingKind::Boot => {
                &&& m1.term@ == spec_write_seq(m0.term@, "boot error: "@ + e + "\n"@)
                &&& m1.fs == m0.fs
                &&& m1.shell == m0.shell
                &&& m1.should_reset == m0.should_reset
                &&& (r is Idle)
                &&& m1.pending@ == m0.pending@.drop_last()
                &&& m1.capture@ == m0.capture@.drop_last()
            },
            PendingKind::KeyChain { resume } => {
                &&& m1.term@ == spec_prompt_write(
                    spec_write_seq(m0.term@, "exec crash: "@ + e + "\n"@),
                    m0.shell.current_path@,
                )
                &&& m1.fs == m0.fs
                &&& m1.shell == m0.shell
                &&& m1.should_reset == (m0.should_reset || resume.reboot)
                &&& (r is Idle)
                &&& m1.pending@ == m0.pending@.drop_last()
                &&& m1.capture@ == m0.capture@.drop_last()
            },
            PendingKind::ExecChain { resume, acc } => {
                &&& m1.term == m0.term
                &&& m1.fs == m0.fs
                &&& m1.shell == m0.shell
                &&& (r matches AfterLoad::ExecOutput { output } && output@ == acc@
                    + "exec crash: "@ + e + "\n"@)
                &&& m1.should_reset == (m0.should_reset || resume.reboot)
                &&& m1.pending@ == m0.pending@.drop_last()
                &&& m1.capture@ == m0.capture@.drop_last()
            },
        },
        None => match entry.kind {
            PendingKind::Boot => {
                &&& m1.term == m0.term
                &&& m1.fs == m0.fs
                &&& m1.shell == m0.shell
                &&& m1.should_reset == m0.should_reset
                &&& (r is Idle)
                &&& m1.pending@ == m0.pending@.drop_last()
                &&& m1.capture@ == m0.capture@.drop_last()
            },
            PendingKind::KeyChain { resume } => {
                let cmds = resume.commands@.map_values(|p: String| p@);
                exists|out2: Seq<char>, st: ChainStatus|
                    {
                        &&& #[trigger] crate::shell::chain_run_spec(
                            m0.shell,
                            m1.shell,
                            m0.fs,
                            m1.fs,
                            cmds,
                            resume.reboot,
                            m0.tick_count as int,
                            m0.hz as int,
                            out2,
                            st,
                        )
                        &&& match st {
                            ChainStatus::Done { reboot } => {
                                &&& m1.term@ == spec_prompt_write(
                                    spec_write_seq(m0.term@, captured@ + out2),
                                    m1.shell.current_path@,
                                )
                                &&& m1.should_reset == (m0.should_reset || reboot)
                                &&& (r is Idle)
                                &&& m1.pending@ == m0.pending@.drop_last()
                                &&& m1.capture@ == m0.capture@.drop_last()
                            },
                            ChainStatus::NeedLoad { bytes, resume: nr } => {
                                &&& m1.term@ == spec_write_seq(m0.term@, captured@ + out2)
                                &&& (r matches AfterLoad::LoadModule { pid, bytes: b } && pid
                                    == m0.sandbox.next_pid && b@ == bytes@)
                                &&& m1.should_reset == m0.should_reset
                                &&& m1.pending@.len() == m0.pending@.len()
                                &&& m1.pending@.drop_last() == m0.pending@.drop_last()
                                &&& m1.pending@.last().pid == m0.sandbox.next_pid
                                &&& (m1.pending@.last().kind matches PendingKind::KeyChain {
                                    resume: r3,
                                } && r3.commands@.map_values(|p: String| p@)
                                    == nr.commands@.map_values(|p: String| p@) && r3.reboot
                                    == nr.reboot)
                                &&& m1.capture@.len() == m0.capture@.len()
                                &&& m1.capture@.last()@ == Seq::<char>::empty()
                            },
                        }
                    }
            },
            PendingKind::ExecChain { resume, acc } => {
                let cmds = resume.commands@.map_values(|p: String| p@);
                exists|sh0: Shell, sh1: Shell, out2: Seq<char>, st: ChainStatus|
                    {
                        &&& #[trigger] crate::shell::chain_run_spec(
                            sh0,
                            sh1,
                            m0.fs,
                            m1.fs,
                            cmds,
                            resume.reboot,
                            m0.tick_count as int,
                            m0.hz as int,
                            out2,
                            st,
                        )
                        &&& crate::shell::spec_shell_fresh(sh0)
                        &&& m1.term == m0.term
                        &&& m1.shell == m0.shell
                        &&& match st {
                            ChainStatus::Done { reboot } => {
                                &&& (r matches AfterLoad::ExecOutput { output } && output@ == acc@
                                    + captured@ + out2)
                                &&& m1.should_reset == (m0.should_reset || reboot)
                                &&& m1.pending@ == m0.pending@.drop_last()
                                &&& m1.capture@ == m0.capture@.drop_last()
                            },
                            ChainStatus::NeedLoad { bytes, resume: nr } => {
                                &&& (r matches AfterLoad::LoadModule { pid, bytes: b } && pid
                                    == m0.sandbox.next_pid && b@ == bytes@)
                                &&& m1.should_reset == m0.should_reset
                                &&& m1.pending@.len() == m0.pending@.len()
                                &&& m1.pending@.drop_last() == m0.pending@.drop_last()
                                &&& m1.pending@.last().pid == m0.sandbox.next_pid
                                &&& (m1.pending@.last().kind matches PendingKind::ExecChain {
                                    resume: r3,
                                    acc: a3,
                                } && a3@ == acc@ + captured@ + out2 && r3.commands@.map_values(
                                    |p: String| p@,
                                ) == nr.commands@.map_values(|p: String| p@) && r3.reboot
                                    == nr.reboot)
                                &&& m1.capture@.len() == m0.capture@.len()
                                &&& m1.capture@.last()@ == Seq::<char>::empty()
                            },
                        }
                    }
            },
        },
    }
}

/// What the `exec` syscall does with a non-blank command line: a fresh
/// transient shell runs the chain against the machine's filesystem.
/// A completed chain hands back its collected text, raising the reboot
/// flag exactly when a piece asked for one; a chain paused on an `exec`
/// piece asks the host for the load under a fresh process identity,
/// with the chain staged to resume and a fresh capture frame opened.
#[verifier::opaque]
pub open spec fn exec_syscall_spec(m0: Machine, m1: Machine, cmd: Seq<char>, r: Option<
    AfterLoad,
>) -> bool {
    exists|sh0: Shell, sh1: Shell, out: Seq<char>, st: ChainStatus|
        {
            &&& #[trigger] crate::shell::chain_run_spec(
                sh0,
                sh1,
                m0.fs,
                m1.fs,
                crate::text::spec_split_chain(crate::text::spec_trim(cmd)),
                false,
                m0.tick_count as int,
                m0.hz as int,
                out,
                st,
            )
            &&& crate::shell::spec_shell_fresh(sh0)
            &&& match st {
                ChainStatus::Done { reboot } => {
                    &&& (r matches Some(a) && a matches AfterLoad::ExecOutput { output }
                        && output@ == out)
                    &&& m1.should_reset == (m0.should_reset || reboot)
                    &&& m1.pending@ == m0.pending@
                    &&& m1.capture@ == m0.capture@
                    &&& m1.sandbox == m0.sandbox
                },
                ChainStatus::NeedLoad { bytes, resume } => {
                    &&& (r matches Some(a) && a matches AfterLoad::LoadModule { pid, bytes: b }
                        && pid == m0.sandbox.next_pid && b@ == bytes@)
                    &&& m1.should_reset == m0.should_reset
                    &&& m1.pending@.len() == m0.pending@.len() + 1
                    &&& m1.pending@.drop_last() == m0.pending@
                    &&& m1.pending@.last().pid == m0.sandbox.next_pid
                    &&& (m1.pending@.last().kind matches PendingKind::ExecChain {
                        resume: r2,
                        acc,
                    } && acc@ == out && r2.commands@.map_values(|p: String| p@)
                        == resume.commands@.map_values(|p: String| p@) && r2.reboot
                        == resume.reboot)
                    &&& m1.capture@.len() == m0.capture@.len() + 1
                    &&& m1.capture@.last()@ == Seq::<char>::empty()
                    &&& m1.sandbox.next_pid == m0.sandbox.next_pid + 1
                },
            }
        }
}

/// A guest-supplied 32-bit color, reinterpreted bit for bit.
pub open spec fn spec_pack_color(c: i32) -> u32 {
    ((c as i64) & 0xFFFF_FFFF) as u32
}

/// The four channel bytes of a packed color.
pub open spec fn spec_color_bytes(c: u32) -> (u8, u8, u8, u8) {
    (
        crate::hw::spec_color_r(c),
        crate::hw::spec_color_g(c),
        crate::hw::spec_color_b(c),
        crate::hw::spec_color_a(c),
    )
}

/// The guest binary a boot target names: a `/bin/`-prefixed target is
/// looked up in `/bin` under its base name, any other under its full
/// name.
pub open spec fn spec_boot_lookup(root: NodeView, target: Seq<char>) -> Option<NodeView> {
    let base = if crate::fs::spec_starts_with(target, "/bin/"@) {
        target.skip(5)
    } else {
        target
    };
    match root.child("bin"@) {
        Some(bin) => match bin.child(base) {
            Some(c) => if !c.dir {
                Some(c)
            } else {
                None
            },
            None => None,
        },
        None => None,
    }
}

impl Machine {
    /// The machine invariant: every component's own invariant, and one
    /// capture frame per load in flight.
    pub open spec fn wf(self) -> bool {
        &&& self.term@.wf()
        &&& self.fs.wf()
        &&& self.bus.gpu.wf()
        &&& self.bus.ram.wf()
        &&& self.capture@.len() == self.pending@.len()
        &&& self.sandbox.wf()
    }

    /// A machine as it comes out of power-on or a reboot.
    pub open spec fn freshly_built(self) -> bool {
        &&& self.wf()
        &&& self.tick_count == 0
        &&& self.state == MachineState::Bios
        &&& self.bios@ == spec_bios_init()
        &&& self.sandbox.active is None
        &&& self.sandbox.next is None
        &&& !self.sandbox.stepping
        &&& !self.gui_mode
        &&& !self.should_reset
        &&& self.events@.len() == 0
        &&& self.pending@.len() == 0
        &&& self.sandbox.next_pid == 0
        &&& crate::shell::spec_shell_fresh(self.shell)
        &&& self.fs.current_path@.len() == 0
        &&& self.fs.total_space == 10 * 1024 * 1024
        &&& self.fs.used_space == 12288
        &&& self.fs.root@.children == seq![
            crate::fs::spec_dir_view("bin"@),
            crate::fs::spec_dir_view("local"@),
            crate::fs::spec_dir_view("tmp"@),
        ]
        &&& self.term@.rows == 32
        &&& self.term@.cols == 64
        &&& self.term@.cursor_x == 0
        &&& self.term@.cursor_y == 0
        &&& !self.term@.cursor_visible
        &&& self.term@.fg == 0xFF_FF_FF_FFu32
        &&& self.term@.bg == 0x00_00_00_FFu32
        &&& (forall|i: int|
            0 <= i < self.term@.grid.len() ==> self.term@.grid[i] == crate::term::spec_blank(
                0xFF_FF_FF_FFu32,
                0x00_00_00_FFu32,
            ))
        &&& self.cpu.pc == 0
        &&& self.bus.ram.size == 16 * 1024 * 1024
        &&& self.bus.gpu.width == 512
        &&& self.bus.gpu.height == 512
        &&& self.hz == 0
    }

    pub fn new() -> (m: Machine)
        ensures
            m.freshly_built(),
    {
        let ram = Ram::new(16 * 1024 * 1024);
        let gpu = Gpu::new(512, 512);
        let bus = Bus::new(ram, gpu);
        let cpu = Cpu::new();
        let bios = Bios::new();
        let term = Terminal::new(64, 32);
        let shell = Shell::new();
        let fs = FileSystem::new(10);
        Machine {
            cpu,
            bus,
            bios,
            term,
            shell,
            fs,
            sandbox: Sandbox::new(),
            tick_count: 0,
            state: MachineState::Bios,
            gui_mode: false,
            should_reset: false,
            events: VecDeque::new(),
            capture: Vec::new(),
            pending: Vec::new(),
            hz: 0,
        }
    }

    /// Reboot: discard and rebuild everything. The tick counter returns
    /// to 0, the process slots empty, and exclusive GUI mode ends.
    pub fn reboot(&mut self)
        ensures
            final(self).freshly_built(),
    {
        *self = Machine::new();
    }

    /// Append an input event to the queue; the input layer's only entry
    /// point.
    pub fn push_event(&mut self, e: SystemEvent)
        ensures
            final(self).events@ == old(self).events@.push(e),
            old(self).wf() ==> final(self).wf(),
            final(self).tick_count == old(self).tick_count,
            final(self).sandbox == old(self).sandbox,
            final(self).gui_mode == old(self).gui_mode,
    {
        self.events.push_back(e);
    }

    /// One logical tick of the pre-guest machinery: advance the stepper,
    /// drive the firmware until handoff, then let the shell consume a
    /// keystroke unless a guest owns the screen. A reboot request is
    /// honored before anything else.
    pub fn step(&mut self, input_op: Option<String>) -> (action: HostAction)
        requires
            old(self).wf(),
            old(self).tick_count < u64::MAX,
            old(self).bios@.ticks < u64::MAX,
            old(self).sandbox.next_pid < u64::MAX,
            !old(self).sandbox.stepping,
        ensures
            final(self).wf(),
            old(self).state == MachineState::Kernel && old(self).should_reset ==> final(self).freshly_built() && (action is Idle),
            // while a guest owns the screen the kernel shell consumes no
            // input: the queue and the shell are untouched, so no event
            // can ever reach two consumers
            old(self).state == MachineState::Kernel && !old(self).should_reset && old(self).gui_mode
                ==> final(self).events == old(self).events && final(self).shell == old(self).shell
                && final(self).term == old(self).term && (action is Idle) && final(self).tick_count
                == old(self).tick_count + 1,
            old(self).state == MachineState::Bios ==> final(self).bios@ == spec_bios_step(
                old(self).bios@,
                match input_op {
                    Some(k) => Some(k@),
                    None => None,
                },
            ) && final(self).tick_count == old(self).tick_count + 1,
            old(self).state == MachineState::Bios && old(self).bios@.state != BiosState::Done
                ==> final(self).state == MachineState::Bios,
            old(self).state == MachineState::Bios && old(self).bios@.state == BiosState::Done
                ==> final(self).state == MachineState::Kernel && final(self).events@.len() == 0
                && (match spec_boot_lookup(old(self).fs.root@, old(self).bios@.target) {
                Some(node) => action matches HostAction::LoadModule { bytes, .. } && bytes@
                    == node.content,
                None => action is Idle,
            }),
            !final(self).sandbox.stepping,
            final(self).sandbox.next_pid <= old(self).sandbox.next_pid + 1,
            // a kernel-state machine either advances one tick or was
            // rebuilt from scratch by a reboot request
            old(self).state == MachineState::Kernel ==> (final(self).state == MachineState::Kernel
                && final(self).tick_count == old(self).tick_count + 1) || final(self).freshly_built(),
            // with no keystroke the kernel leaves the shell, screen,
            // filesystem and queue alone
            old(self).state == MachineState::Kernel && !old(self).should_reset && !old(self).gui_mode
                && input_op is None ==> final(self).shell == old(self).shell && final(self).term
                == old(self).term && final(self).fs == old(self).fs && final(self).events == old(self).events
                && (action is Idle),
            // a printable keystroke reaches the shell's input line
            (old(self).state == MachineState::Kernel && !old(self).should_reset && !old(self).gui_mode
                && !old(self).shell.waiting_for_reset && (input_op matches Some(k) && k@.len()
                == 1)) ==> (input_op matches Some(k) && final(self).shell.input_buffer@ == old(self).shell.input_buffer@
                + k@ && final(self).fs == old(self).fs && (action is Idle)),
            // the enter key runs the buffered line through the shell:
            // either a reboot verdict rebuilt the machine, or the line's
            // chain ran — and a chain paused on an `exec` becomes the
            // requested load, staged to resume
            (old(self).state == MachineState::Kernel && !old(self).should_reset && !old(self).gui_mode
                && !old(self).shell.waiting_for_reset && (input_op matches Some(k) && k@
                == "Enter"@)) ==> (exists|ko: KeyOutcome, sh_run: Shell, fs_run: FileSystem, t_run: TermView|
                {
                    &&& #[trigger] crate::shell::enter_run_spec(
                        old(self).shell,
                        sh_run,
                        old(self).fs,
                        fs_run,
                        old(self).term@,
                        t_run,
                        old(self).tick_count + 1 as int,
                        old(self).hz as int,
                        ko,
                    )
                    &&& match ko {
                        KeyOutcome::Handled => (action is Idle) && final(self).shell == sh_run
                            && final(self).fs == fs_run && final(self).term@ == t_run && final(self).pending@
                            == old(self).pending@ && final(self).capture@ == old(self).capture@,
                        // only a reboot verdict rebuilds the machine
                        KeyOutcome::Reboot => final(self).freshly_built(),
                        KeyOutcome::NeedLoad { bytes, resume } => {
                            &&& final(self).shell == sh_run
                            &&& final(self).fs == fs_run
                            &&& final(self).term@ == t_run
                            &&& (action matches HostAction::LoadModule { pid, bytes: b } && pid
                                == old(self).sandbox.next_pid && b@ == bytes@)
                            &&& final(self).pending@.len() == old(self).pending@.len() + 1
                            &&& final(self).pending@.last().pid == old(self).sandbox.next_pid
                            &&& (final(self).pending@.last().kind matches PendingKind::KeyChain {
                                resume: r2,
                            } && r2.commands@.map_values(|p: String| p@)
                                == resume.commands@.map_values(|p: String| p@) && r2.reboot
                                == resume.reboot)
                            &&& final(self).capture@.len() == old(self).capture@.len() + 1
                            &&& final(self).capture@.last()@ == Seq::<char>::empty()
                        },
                    }
                }),
            // the handoff paints a fresh kernel screen: terminal cleared
            // to black with the cursor shown, framebuffer black; a
            // missing boot binary leaves its error line on that screen
            old(self).state == MachineState::Bios && old(self).bios@.state == BiosState::Done
                ==> crate::hw::spec_filled(
                final(self).bus.gpu,
                0,
                0,
                0,
                final(self).bus.gpu.width * final(self).bus.gpu.height,
            ) && final(self).term@.bg == 0x00_00_00_FFu32 && (match spec_boot_lookup(
                old(self).fs.root@,
                old(self).bios@.target,
            ) {
                Some(node) => final(self).term@.cursor_x == 0 && final(self).term@.cursor_y == 0
                    && final(self).term@.cursor_visible && (forall|i: int|
                    0 <= i < final(self).term@.grid.len() ==> final(self).term@.grid[i]
                        == crate::term::spec_blank(final(self).term@.fg, 0x00_00_00_FFu32)),
                None => exists|f: u32|
                    final(self).term@ == #[trigger] spec_write_seq(
                        spec_fresh_kernel_screen(old(self).term@, f),
                        "boot error: file not found\n"@,
                    ),
            }),
    {
        self.cpu.step(&mut self.bus);
        self.tick_count = self.tick_count + 1;
        match self.state {
            MachineState::Bios => {
                let handoff = self.bios.step(&mut self.term, &mut self.bus, input_op);
                if handoff {
                    self.state = MachineState::Kernel;
                    self.events.clear();
                    self.term.set_bg_color(0x00_00_00_FF);
                    self.term.reset();
                    self.term.show_cursor(true);
                    let ghost f = self.term@.fg;
                    proof {
                        assert(self.term@.grid =~= spec_fresh_kernel_screen(
                            old(self).term@,
                            f,
                        ).grid);
                        assert(self.term@ == spec_fresh_kernel_screen(old(self).term@, f));
                    }
                    self.bus.gpu.clear(0, 0, 0);
                    let target_chars = str_to_chars(self.bios.boot_target.as_str());
                    let base = if str_starts_with(self.bios.boot_target.as_str(), "/bin/") {
                        proof {
                            reveal_strlit("/bin/");
                        }
                        let c = copy_range(&target_chars, 5, target_chars.len());
                        chars_to_string(&c)
                    } else {
                        chars_to_string(&target_chars)
                    };
                    let content: Option<Vec<u8>> = match self.fs.root.get_child("bin") {
                        Some(bin) => {
                            match bin.get_child(base.as_str()) {
                                Some(node) => {
                                    match node.node_type {
                                        crate::fs::NodeType::File => Some(node.content.clone()),
                                        crate::fs::NodeType::Directory => None,
                                    }
                                },
                                None => None,
                            }
                        },
                        None => None,
                    };
                    match content {
                        Some(bytes) => {
                            let pid = self.sandbox.fresh_pid();
                            self.capture.push(String::new());
                            self.pending.push(PendingLoad { pid, kind: PendingKind::Boot });
                            HostAction::LoadModule { pid, bytes }
                        },
                        None => {
                            self.term.write_str("boot error: file not found\n");
                            proof {
                                assert(self.term@ == spec_write_seq(
                                    spec_fresh_kernel_screen(old(self).term@, f),
                                    "boot error: file not found\n"@,
                                ));
                            }
                            HostAction::Idle
                        },
                    }
                } else {
                    HostAction::Idle
                }
            },
            MachineState::Kernel => {
                if self.should_reset {
                    self.reboot();
                    return HostAction::Idle;
                }
                if !self.gui_mode {
                    if let Some(key) = input_op {
                        let outcome = self.shell.on_key(
                            key.as_str(),
                            &mut self.term,
                            &mut self.fs,
                            self.tick_count,
                            self.hz,
                        );
                        match outcome {
                            KeyOutcome::Handled => HostAction::Idle,
                            KeyOutcome::Reboot => {
                                self.reboot();
                                HostAction::Idle
                            },
                            KeyOutcome::NeedLoad { bytes, resume } => {
                                let pid = self.sandbox.fresh_pid();
                                self.capture.push(String::new());
                                self.pending.push(
                                    PendingLoad { pid, kind: PendingKind::KeyChain { resume } },
                                );
                                HostAction::LoadModule { pid, bytes }
                            },
                        }
                    } else {
                        HostAction::Idle
                    }
                } else {
                    HostAction::Idle
                }
            },
        }
    }

    /// Begin the per-tick guest step, if a process is resident: the
    /// active slot is then claimed until `finish_process_step`.
    pub fn tick_process(&mut self) -> (action: HostAction)
        requires
            !old(self).sandbox.stepping,
        ensures
            final(self).sandbox.active == old(self).sandbox.active,
            final(self).sandbox.next == old(self).sandbox.next,
            match action {
                HostAction::StepProcess { pid } => old(self).sandbox.active == Some(pid) && final(self).sandbox.stepping,
                HostAction::Idle => old(self).sandbox.active is None && !final(self).sandbox.stepping,
                _ => false,
            },
            final(self).gui_mode == old(self).gui_mode,
            final(self).term == old(self).term,
            final(self).fs == old(self).fs,
            final(self).sandbox.next_pid == old(self).sandbox.next_pid,
            old(self).wf() ==> final(self).wf(),
    {
        match self.sandbox.begin_step() {
            Some(pid) => HostAction::StepProcess { pid },
            None => HostAction::Idle,
        }
    }

    /// Settle the per-tick guest step. A trap is fatal to the process
    /// alone: the slot empties and exclusive GUI mode ends, and the
    /// system falls back to the kernel shell. In any case a process
    /// staged during the step is then promoted.
    pub fn finish_process_step(&mut self, trapped: bool)
        requires
            old(self).sandbox.stepping,
        ensures
            !final(self).sandbox.stepping,
            final(self).sandbox.next is None,
            final(self).sandbox.active == if old(self).sandbox.next is Some {
                old(self).sandbox.next
            } else if trapped {
                None::<u64>
            } else {
                old(self).sandbox.active
            },
            trapped ==> !final(self).gui_mode,
            !trapped ==> final(self).gui_mode == old(self).gui_mode,
            final(self).term == old(self).term,
            final(self).fs == old(self).fs,
            final(self).events == old(self).events,
            final(self).sandbox.next_pid == old(self).sandbox.next_pid,
            old(self).wf() ==> final(self).wf(),
    {
        self.sandbox.finish_step(trapped);
        if trapped {
            self.gui_mode = false;
        }
    }

    /// Settle a load the host performed. On success the process is
    /// installed under the staging rule; then whatever asked for the
    /// load — the boot path, a typed shell line, or a guest's `exec` —
    /// is resumed.
    #[verifier::spinoff_prover]
    #[verifier::rlimit(100)]
    pub fn finish_load(&mut self, outcome: LoadOutcome) -> (r: AfterLoad)
        requires
            old(self).wf(),
            old(self).pending@.len() > 0,
            old(self).sandbox.next_pid < u64::MAX,
        ensures
            final(self).wf(),
            ({
                let pid = old(self).pending@.last().pid;
                match outcome {
                    LoadOutcome::Ready { has_step } => {
                        if !has_step {
                            // a one-shot guest never occupies a slot
                            final(self).sandbox.active == old(self).sandbox.active && final(self).sandbox.next == old(self).sandbox.next
                        } else if old(self).sandbox.stepping {
                            // loaded while a step runs: staged, not installed
                            final(self).sandbox.active == old(self).sandbox.active && final(self).sandbox.next == Some(pid)
                        } else {
                            final(self).sandbox.active == Some(pid)
                        }
                    },
                    _ => final(self).sandbox.active == old(self).sandbox.active && final(self).sandbox.next == old(self).sandbox.next,
                }
            }),
            final(self).sandbox.stepping == old(self).sandbox.stepping,
            final(self).sandbox.next_pid <= old(self).sandbox.next_pid + 1,
            final(self).events == old(self).events,
            final(self).gui_mode == old(self).gui_mode,
            finish_load_spec(*old(self), *final(self), outcome, r),
    {
        let ghost err = crate::sandbox::spec_load_error_text(outcome);
        let entry = match self.pending.pop() {
            Some(e) => e,
            None => {
                proof {
                    assert(false);
                }
                return AfterLoad::Idle;
            },
        };
        let captured = match self.capture.pop() {
            Some(c) => c,
            None => {
                proof {
                    assert(false);
                }
                String::new()
            },
        };
        let ghost captured_v = captured@;
        proof {
            assert(self.pending@ =~= old(self).pending@.drop_last());
            assert(self.capture@ =~= old(self).capture@.drop_last());
        }
        let load_result: Result<String, String> = match outcome {
            LoadOutcome::Invalid { message } => {
                let mut e = "failed to create module: ".to_owned();
                e.append(message.as_str());
                proof {
                    assert(e@ =~= "failed to create module: "@ + message@);
                }
                Err(e)
            },
            LoadOutcome::InstantiationFailed { message } => {
                let mut e = "failed to instantiate: ".to_owned();
                e.append(message.as_str());
                proof {
                    assert(e@ =~= "failed to instantiate: "@ + message@);
                }
                Err(e)
            },
            LoadOutcome::StartFailed { message } => {
                let mut e = "failed to start: ".to_owned();
                e.append(message.as_str());
                proof {
                    assert(e@ =~= "failed to start: "@ + message@);
                }
                Err(e)
            },
            LoadOutcome::TrapDuringInit { message, legacy } => {
                let mut e = if legacy {
                    "start error: ".to_owned()
                } else {
                    "init error: ".to_owned()
                };
                e.append(message.as_str());
                proof {
                    assert(e@ =~= (if legacy {
                        "start error: "@
                    } else {
                        "init error: "@
                    }) + message@);
                }
                Err(e)
            },
            LoadOutcome::Ready { has_step } => {
                self.sandbox.install(entry.pid, has_step);
                Ok(captured)
            },
        };
        proof {
            assert(match load_result {
                Ok(c) => err is None && c@ == captured_v,
                Err(e) => err == Some(e@),
            });
        }
        let result = match entry.kind {
            PendingKind::Boot => {
                if let Err(e) = load_result {
                    let mut msg = "boot error: ".to_owned();
                    msg.append(e.as_str());
                    msg.append("\n");
                    proof {
                        assert(msg@ =~= "boot error: "@ + e@ + "\n"@);
                    }
                    self.term.write_str(msg.as_str());
                }
                AfterLoad::Idle
            },
            PendingKind::KeyChain { resume } => {
                let ghost rb = resume.reboot;
                let ghost cmds = resume.commands@.map_values(|p: String| p@);
                let ghost sh_before = self.shell;
                let ghost fs_before = self.fs;
                let run = self.shell.resume_chain(
                    resume,
                    load_result,
                    &mut self.fs,
                    self.tick_count,
                    self.hz,
                );
                let ghost run_out = run.output@;
                let ghost st_g = run.status;
                proof {
                    if err is None {
                        let out2 = choose|x: Seq<char>|
                            {
                                &&& #[trigger] crate::shell::chain_run_spec(
                                    sh_before,
                                    self.shell,
                                    fs_before,
                                    self.fs,
                                    cmds,
                                    rb,
                                    self.tick_count as int,
                                    self.hz as int,
                                    x,
                                    st_g,
                                )
                                &&& run_out == captured_v + x
                            };
                        assert(run_out == captured_v + out2);
                    }
                }
                self.term.write_str(run.output.as_str());
                match run.status {
                    ChainStatus::Done { reboot } => {
                        self.shell.draw_prompt(&mut self.term);
                        if reboot {
                            self.should_reset = true;
                        }
                        AfterLoad::Idle
                    },
                    ChainStatus::NeedLoad { bytes, resume } => {
                        let pid = self.sandbox.fresh_pid();
                        self.capture.push(String::new());
                        proof {
                            assert(self.capture@.last()@ =~= Seq::<char>::empty());
                        }
                        self.pending.push(
                            PendingLoad { pid, kind: PendingKind::KeyChain { resume } },
                        );
                        proof {
                            assert(self.pending@.drop_last() =~= old(self).pending@.drop_last());
                            assert(self.capture@.drop_last() =~= old(self).capture@.drop_last());
                        }
                        AfterLoad::LoadModule { pid, bytes }
                    },
                }
            },
            PendingKind::ExecChain { resume, acc } => {
                let ghost rb = resume.reboot;
                let ghost cmds = resume.commands@.map_values(|p: String| p@);
                let mut transient = Shell::new();
                let ghost sh0 = transient;
                let ghost fs_before = self.fs;
                let run = transient.resume_chain(
                    resume,
                    load_result,
                    &mut self.fs,
                    self.tick_count,
                    self.hz,
                );
                let ghost sh1 = transient;
                let ghost run_out = run.output@;
                let ghost st_g = run.status;
                let ghost acc0 = acc@;
                proof {
                    if err is None {
                        let out2 = choose|x: Seq<char>|
                            {
                                &&& #[trigger] crate::shell::chain_run_spec(
                                    sh0,
                                    sh1,
                                    fs_before,
                                    self.fs,
                                    cmds,
                                    rb,
                                    self.tick_count as int,
                                    self.hz as int,
                                    x,
                                    st_g,
                                )
                                &&& run_out == captured_v + x
                            };
                        assert(run_out == captured_v + out2);
                    }
                }
                let mut acc = acc;
                acc.append(run.output.as_str());
                proof {
                    assert(acc@ =~= acc0 + run_out);
                    if err is Some {
                        assert(acc@ =~= acc0 + "exec crash: "@ + (err->Some_0) + "\n"@);
                    } else {
                        let out2 = choose|x: Seq<char>|
                            {
                                &&& #[trigger] crate::shell::chain_run_spec(
                                    sh0,
                                    sh1,
                                    fs_before,
                                    self.fs,
                                    cmds,
                                    rb,
                                    self.tick_count as int,
                                    self.hz as int,
                                    x,
                                    st_g,
                                )
                                &&& run_out == captured_v + x
                            };
                        assert(acc@ =~= acc0 + captured_v + out2);
                    }
                }
                match run.status {
                    ChainStatus::Done { reboot } => {
                        if reboot {
                            self.should_reset = true;
                        }
                        AfterLoad::ExecOutput { output: acc }
                    },
                    ChainStatus::NeedLoad { bytes, resume } => {
                        let pid = self.sandbox.fresh_pid();
                        self.capture.push(String::new());
                        proof {
                            assert(self.capture@.last()@ =~= Seq::<char>::empty());
                        }
                        self.pending.push(
                            PendingLoad { pid, kind: PendingKind::ExecChain { resume, acc } },
                        );
                        proof {
                            assert(self.pending@.drop_last() =~= old(self).pending@.drop_last());
                            assert(self.capture@.drop_last() =~= old(self).capture@.drop_last());
                        }
                        AfterLoad::LoadModule { pid, bytes }
                    },
                }
            },
        };
        proof {
            reveal(finish_load_spec);
            assert(finish_load_spec(*old(self), *self, outcome, result));
        }
        result
    }

    /// The `exec` syscall: run a command line through a transient shell.
    /// When the line loads another guest, the load is staged through the
    /// host exactly like any other; the guest gets the chain's collected
    /// text once it completes.
    pub fn sys_exec(&mut self, cmd: &str) -> (r: Option<AfterLoad>)
        requires
            old(self).wf(),
            old(self).sandbox.next_pid < u64::MAX,
        ensures
            final(self).wf(),
            final(self).sandbox.next_pid <= old(self).sandbox.next_pid + 1,
            crate::text::spec_trim(cmd@).len() == 0 ==> r is None && *final(self) == *old(self),
            crate::text::spec_trim(cmd@).len() > 0 ==> exec_syscall_spec(
                *old(self),
                *final(self),
                cmd@,
                r,
            ),
            final(self).term == old(self).term,
            final(self).events == old(self).events,
            final(self).gui_mode == old(self).gui_mode,
            final(self).sandbox.active == old(self).sandbox.active,
            final(self).sandbox.next == old(self).sandbox.next,
            final(self).sandbox.stepping == old(self).sandbox.stepping,
    {
        let trimmed = crate::text::trim_chars(str_to_chars(cmd));
        if trimmed.len() == 0 {
            return None;
        }
        let mut transient = Shell::new();
        let ghost sh0 = transient;
        let run = transient.execute_string(cmd, &mut self.fs, self.tick_count, self.hz);
        let ghost sh1 = transient;
        let ghost out_g = run.output@;
        let ghost st_g = run.status;
        let outcome = match run.status {
            ChainStatus::Done { reboot } => {
                if reboot {
                    self.should_reset = true;
                }
                Some(AfterLoad::ExecOutput { output: run.output })
            },
            ChainStatus::NeedLoad { bytes, resume } => {
                let pid = self.sandbox.fresh_pid();
                self.capture.push(String::new());
                let ghost cap0 = old(self).capture@;
                proof {
                    assert(self.capture@.last()@ =~= Seq::<char>::empty());
                    assert(self.capture@.drop_last() =~= cap0);
                    assert(self.pending@ == old(self).pending@);
                }
                self.pending.push(
                    PendingLoad { pid, kind: PendingKind::ExecChain { resume, acc: run.output } },
                );
                proof {
                    assert(self.pending@.drop_last() =~= old(self).pending@);
                }
                Some(AfterLoad::LoadModule { pid, bytes })
            },
        };
        proof {
            reveal(exec_syscall_spec);
            assert(crate::shell::chain_run_spec(
                sh0,
                sh1,
                old(self).fs,
                self.fs,
                crate::text::spec_split_chain(crate::text::spec_trim(cmd@)),
                false,
                old(self).tick_count as int,
                old(self).hz as int,
                out_g,
                st_g,
            ));
            assert(exec_syscall_spec(*old(self), *self, cmd@, outcome));
        }
        outcome
    }

    /// The print syscall: the text and a newline go to the terminal, and
    /// to the innermost capture frame while a load is in flight.
    pub fn sys_print(&mut self, msg: &str)
        requires
            old(self).wf(),
        ensures
            final(self).wf(),
            final(self).term@ == spec_write_char(spec_write_seq(old(self).term@, msg@), '\n'),
            old(self).capture@.len() > 0 ==> final(self).capture@ == old(self).capture@.update(
                old(self).capture@.len() - 1,
                final(self).capture@[old(self).capture@.len() - 1],
            ) && final(self).capture@[old(self).capture@.len() - 1]@ == old(self).capture@[old(self).capture@.len() - 1]@ + msg@ + "\n"@,
            old(self).capture@.len() == 0 ==> final(self).capture@ == old(self).capture@,
            final(self).events == old(self).events,
            final(self).sandbox == old(self).sandbox,
            final(self).gui_mode == old(self).gui_mode,
    {
        self.term.write_str(msg);
        self.term.write_char('\n');
        let n = self.capture.len();
        if n > 0 {
            let ghost cap0 = self.capture@;
            let frame = &mut self.capture[n - 1];
            frame.append(msg);
            crate::text::push_char(frame, '\n');
            proof {
                reveal_strlit("\n");
                assert(cap0 == old(self).capture@);
                assert(self.capture@[n - 1]@ =~= cap0[n - 1]@ + msg@ + "\n"@);
                assert(self.capture@ =~= cap0.update(n - 1, self.capture@[n - 1]));
            }
        }
    }

    /// The framebuffer width, for the guest ABI.
    pub fn sys_gpu_width(&self) -> (r: i32)
        requires
            self.wf(),
        ensures
            r == self.bus.gpu.width as i32,
    {
        self.bus.gpu.width as i32
    }

    /// The framebuffer height, for the guest ABI.
    pub fn sys_gpu_height(&self) -> (r: i32)
        requires
            self.wf(),
        ensures
            r == self.bus.gpu.height as i32,
    {
        self.bus.gpu.height as i32
    }

    /// Clear the framebuffer to an opaque color; each channel is the low
    /// byte of its argument.
    pub fn sys_gpu_clear(&mut self, r: i32, g: i32, b: i32)
        requires
            old(self).wf(),
        ensures
            final(self).wf(),
            crate::hw::spec_filled(
                final(self).bus.gpu,
                (r & 0xFF) as u8,
                (g & 0xFF) as u8,
                (b & 0xFF) as u8,
                final(self).bus.gpu.width * final(self).bus.gpu.height,
            ),
            final(self).bus.gpu.width == old(self).bus.gpu.width,
            final(self).bus.gpu.height == old(self).bus.gpu.height,
            final(self).term == old(self).term,
    {
        self.bus.gpu.clear(((r & 0xFF) as u8), ((g & 0xFF) as u8), ((b & 0xFF) as u8));
    }

    /// Fill a rectangle in the packed color, clipped to the screen.
    /// Exactly the pixels inside the rectangle take the color; the rest
    /// keep their value.
    pub fn sys_draw_rect(&mut self, x: i32, y: i32, w: i32, h: i32, color: i32)
        requires
            old(self).wf(),
        ensures
            final(self).wf(),
            final(self).bus.gpu.width == old(self).bus.gpu.width,
            final(self).bus.gpu.height == old(self).bus.gpu.height,
            forall|px: int, py: int|
                0 <= px < old(self).bus.gpu.width && 0 <= py < old(self).bus.gpu.height
                    ==> #[trigger] final(self).bus.gpu.pixel_at(px, py) == if x <= px < x + w && y
                    <= py < y + h {
                    spec_color_bytes(spec_pack_color(color))
                } else {
                    old(self).bus.gpu.pixel_at(px, py)
                },
            final(self).term == old(self).term,
    {
        let packed: u32 = ((color as i64) & 0xFFFF_FFFF) as u32;
        self.bus.gpu.fill_rect(x, y, w, h, packed);
    }

    /// Draw a text run, 8 pixels per character, clipped to the screen.
    /// Exactly the pixels the glyph cells paint take the packed color;
    /// the rest keep their value.
    #[verifier::rlimit(50)]
    pub fn sys_draw_text(&mut self, text: &str, x: i32, y: i32, color: i32)
        requires
            old(self).wf(),
        ensures
            final(self).wf(),
            final(self).bus.gpu.width == old(self).bus.gpu.width,
            final(self).bus.gpu.height == old(self).bus.gpu.height,
            forall|px: int, py: int|
                0 <= px < old(self).bus.gpu.width && 0 <= py < old(self).bus.gpu.height
                    ==> #[trigger] final(self).bus.gpu.pixel_at(px, py)
                    == if crate::gfx::spec_text_mask(text@, x as int, y as int, px, py) {
                    spec_color_bytes(spec_pack_color(color))
                } else {
                    old(self).bus.gpu.pixel_at(px, py)
                },
            final(self).term == old(self).term,
    {
        let packed: u32 = ((color as i64) & 0xFFFF_FFFF) as u32;
        let chars = str_to_chars(text);
        let n = chars.len();
        let mut i: usize = 0;
        let mut draw_x: i64 = x as i64;
        while i < n
            invariant
                n == chars@.len(),
                chars@ == text@,
                i <= n,
                packed == spec_pack_color(color),
                self.bus.gpu.wf(),
                self.bus.gpu.width == old(self).bus.gpu.width,
                self.bus.gpu.height == old(self).bus.gpu.height,
                self.term == old(self).term,
                self.fs == old(self).fs,
                self.capture == old(self).capture,
                self.pending == old(self).pending,
                self.sandbox == old(self).sandbox,
                self.term@.wf(),
                self.fs.wf(),
                self.bus.ram.wf(),
                self.capture@.len() == self.pending@.len(),
                x as int <= draw_x as int,
                draw_x <= i32::MAX as i64 ==> draw_x as int == x as int + 8 * (i as int),
                draw_x > i32::MAX as i64 ==> x as int + 8 * (i as int) > i32::MAX as int,
                forall|px: int, py: int|
                    0 <= px < old(self).bus.gpu.width && 0 <= py < old(self).bus.gpu.height
                        ==> #[trigger] self.bus.gpu.pixel_at(px, py)
                        == if crate::gfx::spec_text_mask(
                        text@.take(i as int),
                        x as int,
                        y as int,
                        px,
                        py,
                    ) {
                        spec_color_bytes(packed)
                    } else {
                        old(self).bus.gpu.pixel_at(px, py)
                    },
            decreases n - i,
        {
            let ghost gpu_prev = self.bus.gpu;
            if draw_x <= i32::MAX as i64 {
                draw_char(&mut self.bus.gpu, draw_x as i32, y, chars[i], packed);
                proof {
                    assert forall|px: int, py: int|
                        0 <= px < old(self).bus.gpu.width && 0 <= py < old(
                            self,
                        ).bus.gpu.height implies #[trigger] self.bus.gpu.pixel_at(px, py) == (
                    if crate::gfx::spec_text_mask(text@.take(i + 1), x as int, y as int, px, py) {
                        spec_color_bytes(packed)
                    } else {
                        old(self).bus.gpu.pixel_at(px, py)
                    }) by {
                        let hit = x as int + 8 * i <= i32::MAX && crate::gfx::spec_char_cell_hit(
                            text@[i as int],
                            x as int + 8 * i,
                            y as int,
                            px,
                            py,
                        );
                        crate::gfx::lemma_text_mask_extend(
                            text@,
                            x as int,
                            y as int,
                            i as int,
                            px,
                            py,
                            hit,
                        );
                        assert(gpu_prev.pixel_at(px, py) == if crate::gfx::spec_text_mask(
                            text@.take(i as int),
                            x as int,
                            y as int,
                            px,
                            py,
                        ) {
                            spec_color_bytes(packed)
                        } else {
                            old(self).bus.gpu.pixel_at(px, py)
                        });
                    }
                }
            } else {
                proof {
                    assert forall|px: int, py: int|
                        0 <= px < old(self).bus.gpu.width && 0 <= py < old(
                            self,
                        ).bus.gpu.height implies #[trigger] self.bus.gpu.pixel_at(px, py) == (
                    if crate::gfx::spec_text_mask(text@.take(i + 1), x as int, y as int, px, py) {
                        spec_color_bytes(packed)
                    } else {
                        old(self).bus.gpu.pixel_at(px, py)
                    }) by {
                        crate::gfx::lemma_text_mask_extend(
                            text@,
                            x as int,
                            y as int,
                            i as int,
                            px,
                            py,
                            false,
                        );
                    }
                }
            }
            if draw_x <= i32::MAX as i64 {
                draw_x = draw_x + 8;
            }
            i = i + 1;
        }
        proof {
            assert(text@.take(n as int) =~= text@);
        }
    }

    /// Claim the framebuffer exclusively for the active guest.
    pub fn sys_enable_gui_mode(&mut self)
        ensures
            final(self).gui_mode,
            old(self).wf() ==> final(self).wf(),
            final(self).term == old(self).term,
            final(self).events == old(self).events,
            final(self).sandbox == old(self).sandbox,
            final(self).capture == old(self).capture,
            final(self).pending == old(self).pending,
            final(self).fs == old(self).fs,
            final(self).bus == old(self).bus,
            final(self).should_reset == old(self).should_reset,
    {
        self.gui_mode = true;
    }

    /// The poll syscall: the oldest queued event, removed from the
    /// queue, or nothing — never blocking. Each event is delivered
    /// exactly once, in arrival order.
    pub fn sys_poll_event(&mut self) -> (r: Option<SystemEvent>)
        ensures
            old(self).events@.len() > 0 ==> r == Some(old(self).events@.first()) && final(self).events@ == old(self).events@.drop_first(),
            old(self).events@.len() == 0 ==> r is None && final(self).events@ == old(self).events@,
            old(self).wf() ==> final(self).wf(),
            final(self).term == old(self).term,
            final(self).sandbox == old(self).sandbox,
            final(self).gui_mode == old(self).gui_mode,
            final(self).fs == old(self).fs,
    {
        self.events.pop_front()
    }

    /// The directory-listing syscall: the `D:`/`F:` lines for the
    /// directory the path names, or nothing when it names no directory.
    pub fn sys_fs_list(&self, path: &str) -> (r: Option<String>)
        requires
            self.wf(),
        ensures
            ({
                let comps = spec_path_components(path@);
                match spec_dir_at(self.fs.root@, comps, 0) {
                    Some(d) => r matches Some(text) && text@ == spec_dir_listing(
                        d,
                        comps.len() > 0,
                    ),
                    None => r is None,
                }
            }),
    {
        let chars = str_to_chars(path);
        let comp_vecs = path_components(&chars);
        let mut comps: Vec<String> = Vec::new();
        let mut j: usize = 0;
        while j < comp_vecs.len()
            invariant
                j <= comp_vecs@.len(),
                comps@.len() == j,
                forall|k: int| 0 <= k < j ==> (#[trigger] comps@[k])@ == comp_vecs@[k]@,
            decreases comp_vecs@.len() - j,
        {
            comps.push(chars_to_string(&comp_vecs[j]));
            j = j + 1;
        }
        proof {
            assert(spec_path_view(comps@) =~= spec_path_components(path@));
        }
        match self.fs.resolve_dir(comps.as_slice()) {
            Some(dir) => {
                let mut out = String::new();
                if comps.len() > 0 {
                    out.append("D:..\n");
                }
                proof {
                    crate::fs::lemma_children_view(dir.children@);
                }
                let ghost base = out@;
                let n = dir.children.len();
                let mut i: usize = 0;
                while i < n
                    invariant
                        n == dir.children@.len(),
                        n == dir@.children.len(),
                        i <= n,
                        out@ == base + spec_listing_entries(dir@.children.take(i as int)),
                    decreases n - i,
                {
                    proof {
                        crate::fs::lemma_children_view(dir.children@);
                    }
                    match dir.children[i].node_type {
                        crate::fs::NodeType::Directory => out.append("D:"),
                        crate::fs::NodeType::File => out.append("F:"),
                    }
                    out.append(dir.children[i].name.as_str());
                    out.append("\n");
                    proof {
                        assert(dir@.children.take(i + 1).drop_last() =~= dir@.children.take(
                            i as int,
                        ));
                        assert(out@ =~= base + spec_listing_entries(dir@.children.take(i + 1)));
                    }
                    i = i + 1;
                }
                proof {
                    assert(dir@.children.take(n as int) =~= dir@.children);
                    assert(out@ =~= spec_dir_listing(dir@, comps@.len() > 0));
                }
                Some(out)
            },
            None => None,
        }
    }

    /// The working-directory syscall: `~` at the root, else the slash-
    /// joined path.
    pub fn sys_fs_getcwd(&self) -> (r: String)
        ensures
            r@ == spec_prompt_path(spec_path_view(self.fs.current_path@)),
    {
        if self.fs.current_path.len() == 0 {
            let r = "~".to_owned();
            return r;
        }
        let ghost pv = spec_path_view(self.fs.current_path@);
        let mut p = String::new();
        let n = self.fs.current_path.len();
        let mut i: usize = 0;
        while i < n
            invariant
                n == self.fs.current_path@.len(),
                i <= n,
                pv == spec_path_view(self.fs.current_path@),
                p@ == crate::shell::spec_join_path(pv.take(i as int)),
            decreases n - i,
        {
            crate::text::push_char(&mut p, '/');
            p.append(self.fs.current_path[i].as_str());
            proof {
                assert(pv.take(i + 1).drop_last() =~= pv.take(i as int));
                assert(pv.take(i + 1).last() == pv[i as int]);
                assert(p@ =~= crate::shell::spec_join_path(pv.take(i + 1)));
            }
            i = i + 1;
        }
        proof {
            assert(pv.take(n as int) =~= pv);
        }
        p
    }

    /// The factory-reset syscall: request a full rebuild at the next
    /// tick.
    pub fn sys_reset(&mut self)
        ensures
            final(self).should_reset,
            old(self).wf() ==> final(self).wf(),
            final(self).term == old(self).term,
            final(self).sandbox == old(self).sandbox,
            final(self).gui_mode == old(self).gui_mode,
            final(self).events == old(self).events,
            final(self).fs == old(self).fs,
            final(self).capture == old(self).capture,
            final(self).pending == old(self).pending,
    {
        self.should_reset = true;
    }

    /// The soft-restart syscall: same rebuild request.
    pub fn sys_restart(&mut self)
        ensures
            final(self).should_reset,
            old(self).wf() ==> final(self).wf(),
            final(self).term == old(self).term,
            final(self).sandbox == old(self).sandbox,
            final(self).gui_mode == old(self).gui_mode,
            final(self).events == old(self).events,
            final(self).fs == old(self).fs,
            final(self).capture == old(self).capture,
            final(self).pending == old(self).pending,
    {
        self.should_reset = true;
    }

    /// Render the terminal grid onto the framebuffer, as the pre-GUI
    /// display path does each frame.
    pub fn render_terminal(&mut self)
        requires
            old(self).wf(),
        ensures
            final(self).wf(),
            final(self).term == old(self).term,
            final(self).bus.gpu.width == old(self).bus.gpu.width,
            final(self).bus.gpu.height == old(self).bus.gpu.height,
    {
        let term = &self.term;
        term.render(&mut self.bus.gpu, 4, 0);
    }
}

} // verus!
