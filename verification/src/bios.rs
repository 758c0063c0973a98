//! The firmware boot sequencer: a tick-driven state machine that paints
//! diagnostics, offers a setup-menu window, and finally selects a boot
//! target. Every transition is driven by the tick count, never by wall
//! time, so the whole sequence is deterministic in the ticks and keys fed
//! to it.

use vstd::prelude::*;
use crate::term::Terminal;
use crate::hw::Bus;
use crate::text::str_eq;
use crate::text::push_dec;

verus! {

/// The firmware phases, in the order they are normally traversed.
#[derive(Clone, Copy, Debug, PartialEq, Eq, Structural)]
pub enum BiosState {
    PowerOn,
    MemoryTest,
    WaitingForInput,
    Setup,
    Booting,
    Done,
}

/// The mathematical model of the sequencer: phase, tick counter, chosen
/// boot target.
pub ghost struct BiosModel {
    pub state: BiosState,
    pub ticks: int,
    pub target: Seq<char>,
}

/// The model of a freshly powered-on sequencer.
pub open spec fn spec_bios_init() -> BiosModel {
    BiosModel { state: BiosState::PowerOn, ticks: 0, target: "/bin/terminal.wasm"@ }
}

/// The simulated memory-test counter after `t` ticks.
pub open spec fn spec_mem_counter(t: int) -> int {
    if t >= 10 {
        (t - 10) * 16384 / 100
    } else {
        0
    }
}

/// One tick of the sequencer: the tick counter advances, then the phase
/// moves as the firmware dictates. `key` is the keystroke delivered this
/// tick, if any.
pub open spec fn spec_bios_step(m: BiosModel, key: Option<Seq<char>>) -> BiosModel {
    let t = m.ticks + 1;
    match m.state {
        BiosState::PowerOn => {
            if t == 10 {
                BiosModel { state: BiosState::MemoryTest, ticks: t, ..m }
            } else {
                BiosModel { ticks: t, ..m }
            }
        },
        BiosState::MemoryTest => {
            if t % 10 == 0 && spec_mem_counter(t) >= 16384 {
                BiosModel { state: BiosState::WaitingForInput, ticks: t, ..m }
            } else {
                BiosModel { ticks: t, ..m }
            }
        },
        BiosState::WaitingForInput => {
            if key is Some {
                BiosModel { state: BiosState::Setup, ticks: t, ..m }
            } else if t > 250 {
                BiosModel { state: BiosState::Booting, ticks: t, ..m }
            } else {
                BiosModel { ticks: t, ..m }
            }
        },
        BiosState::Setup => {
            match key {
                Some(k) => {
                    if k == "1"@ {
                        BiosModel { state: BiosState::Booting, ticks: 0, target: "/bin/terminal.wasm"@ }
                    } else if k == "2"@ {
                        BiosModel { state: BiosState::Booting, ticks: 0, target: "/bin/desktop.wasm"@ }
                    } else {
                        BiosModel { ticks: t, ..m }
                    }
                },
                None => BiosModel { ticks: t, ..m },
            }
        },
        BiosState::Booting => {
            if t > 60 {
                BiosModel { state: BiosState::Done, ticks: t, ..m }
            } else {
                BiosModel { ticks: t, ..m }
            }
        },
        BiosState::Done => BiosModel { ticks: t, ..m },
    }
}

/// The sequencer after a whole sequence of ticks, one keystroke option
/// per tick.
pub open spec fn spec_bios_run(m: BiosModel, inputs: Seq<Option<Seq<char>>>) -> BiosModel
    decreases inputs.len(),
{
    if inputs.len() == 0 {
        m
    } else {
        spec_bios_run(spec_bios_step(m, inputs.first()), inputs.drop_first())
    }
}

/// A run of `n` ticks with no input at all.
pub open spec fn spec_nones(n: nat) -> Seq<Option<Seq<char>>> {
    Seq::new(n, |i: int| None)
}

/// The firmware sequencer.
pub struct Bios {
    pub state: BiosState,
    pub ticks: u64,
    pub boot_target: String,
}

impl View for Bios {
    type V = BiosModel;

    open spec fn view(&self) -> BiosModel {
        BiosModel { state: self.state, ticks: self.ticks as int, target: self.boot_target@ }
    }
}

impl Bios {
    pub fn new() -> (b: Bios)
        ensures
            b@ == spec_bios_init(),
    {
        Bios {
            state: BiosState::PowerOn,
            ticks: 0,
            boot_target: "/bin/terminal.wasm".to_owned(),
        }
    }

    /// One tick: paint this phase's output and take exactly the model's
    /// transition. Returns true when the sequencer has reached `Done` and
    /// the kernel should take over.
    pub fn step(&mut self, term: &mut Terminal, bus: &mut Bus, input_op: Option<String>) -> (handoff: bool)
        requires
            old(self)@.ticks < u64::MAX,
            old(term)@.wf(),
            old(bus).gpu.wf(),
        ensures
            final(self)@ == spec_bios_step(
                old(self)@,
                match input_op {
                    Some(k) => Some(k@),
                    None => None,
                },
            ),
            handoff == (old(self)@.state == BiosState::Done),
            final(term)@.wf(),
            final(term)@.rows == old(term)@.rows,
            final(term)@.cols == old(term)@.cols,
            final(bus).gpu.wf(),
            final(bus).gpu.width == old(bus).gpu.width,
            final(bus).gpu.height == old(bus).gpu.height,
            final(bus).ram == old(bus).ram,
            // `Done` only reports the handoff: nothing is painted
            old(self)@.state == BiosState::Done ==> final(term)@ == old(term)@ && *final(bus)
                == *old(bus),
    {
        self.ticks = self.ticks + 1;
        match self.state {
            BiosState::PowerOn => {
                bus.gpu.clear(0, 0, 0);
                if self.ticks == 10 {
                    term.reset();
                    term.write_str("wasmix bios v0.1.0\n");
                    term.write_str("copyright (c) 2026 compusophy inc.\n\n");
                    term.write_str("detecting hardware...\n");
                    term.write_str("cpu: wasm-32 virtual core\n");
                    term.write_str("display: 512x512 rgba (1 mb vram)\n");
                    self.state = BiosState::MemoryTest;
                }
                false
            },
            BiosState::MemoryTest => {
                if self.ticks % 10 == 0 {
                    let mem: u128 = if self.ticks >= 10 {
                        (((self.ticks - 10) as u128) * 16384) / 100
                    } else {
                        0
                    };
                    if mem >= 16384 {
                        term.write_str("\rmemory test: 16384 kb ok\n\n");
                        self.state = BiosState::WaitingForInput;
                    } else {
                        let mut msg = "\rmemory test: ".to_owned();
                        push_dec(&mut msg, mem as u64);
                        term.write_str(msg.as_str());
                        term.write_str(" kb ok");
                    }
                }
                false
            },
            BiosState::WaitingForInput => {
                if input_op.is_some() {
                    term.write_str("entering setup...\n");
                    self.state = BiosState::Setup;
                    bus.gpu.clear(0, 0, 0x80);
                    term.reset();
                    term.set_fg_color(0xFF_FF_00_FF);
                    term.write_str("wasmix bios setup\n\n");
                    term.set_fg_color(0xFF_FF_FF_FF);
                    term.write_str("select boot device:\n");
                    term.write_str("1. terminal (default)\n");
                    term.write_str("2. desktop gui\n\n");
                    term.write_str("press [1] or [2] to select.\n");
                    return false;
                }
                if self.ticks % 60 == 0 && self.ticks < 250 {
                    let remaining = (250 - self.ticks) / 60;
                    if remaining > 0 {
                        let mut msg = "\rpress any key to enter setup... (".to_owned();
                        push_dec(&mut msg, remaining);
                        term.write_str(msg.as_str());
                        term.write_str("s)   ");
                    }
                }
                if self.ticks > 250 {
                    self.state = BiosState::Booting;
                }
                false
            },
            BiosState::Setup => {
                if let Some(key) = input_op {
                    if str_eq(key.as_str(), "1") {
                        self.boot_target = "/bin/terminal.wasm".to_owned();
                        term.write_str("\nselected: terminal\nbooting...");
                        self.state = BiosState::Booting;
                        self.ticks = 0;
                    } else if str_eq(key.as_str(), "2") {
                        self.boot_target = "/bin/desktop.wasm".to_owned();
                        term.write_str("\nselected: desktop\nbooting...");
                        self.state = BiosState::Booting;
                        self.ticks = 0;
                    }
                }
                false
            },
            BiosState::Booting => {
                if self.ticks > 60 {
                    self.state = BiosState::Done;
                }
                false
            },
            BiosState::Done => true,
        }
    }
}

/// Splitting a run: running `a + b` is running `a`, then `b`.
pub proof fn lemma_bios_run_concat(m: BiosModel, a: Seq<Option<Seq<char>>>, b: Seq<
    Option<Seq<char>>,
>)
    ensures
        spec_bios_run(m, a + b) == spec_bios_run(spec_bios_run(m, a), b),
    decreases a.len(),
{
    if a.len() == 0 {
        assert(a + b =~= b);
    } else {
        assert((a + b).drop_first() =~= a.drop_first() + b);
        lemma_bios_run_concat(spec_bios_step(m, a.first()), a.drop_first(), b);
    }
}

/// From power-on, `10 - ticks` silent ticks finish the banner phase.
proof fn lemma_phase_power_on(m: BiosModel, n: nat)
    requires
        m.state == BiosState::PowerOn,
        0 <= m.ticks < 10,
        n == 10 - m.ticks,
    ensures
        spec_bios_run(m, spec_nones(n)) == (BiosModel {
            state: BiosState::MemoryTest,
            ticks: 10,
            ..m
        }),
    decreases n,
{
    assert(spec_nones(n).drop_first() =~= spec_nones((n - 1) as nat));
    if m.ticks + 1 < 10 {
        lemma_phase_power_on(spec_bios_step(m, None), (n - 1) as nat);
    } else {
        assert(spec_bios_run(spec_bios_step(m, None), spec_nones(0)) == spec_bios_step(m, None));
    }
}

/// The memory test finishes exactly when the counter reaches its target.
proof fn lemma_phase_mem_test(m: BiosModel, n: nat)
    requires
        m.state == BiosState::MemoryTest,
        10 <= m.ticks < 110,
        n == 110 - m.ticks,
    ensures
        spec_bios_run(m, spec_nones(n)) == (BiosModel {
            state: BiosState::WaitingForInput,
            ticks: 110,
            ..m
        }),
    decreases n,
{
    let s = spec_nones(n);
    let m1 = spec_bios_step(m, None);
    assert(s.first() == Option::<Seq<char>>::None);
    assert(spec_bios_run(m, s) == spec_bios_run(m1, s.drop_first()));
    assert(s.drop_first() =~= spec_nones((n - 1) as nat));
    let t = m.ticks + 1;
    if t < 110 {
        assert(spec_mem_counter(t) < 16384) by (nonlinear_arith)
            requires
                10 <= t < 110,
        ;
        assert(m1 == BiosModel { ticks: t, ..m });
        lemma_phase_mem_test(m1, (n - 1) as nat);
    } else {
        assert(t == 110 && t % 10 == 0 && spec_mem_counter(t) == 16384);
        assert(m1 == BiosModel { state: BiosState::WaitingForInput, ticks: 110, ..m });
        assert(spec_bios_run(m1, spec_nones(0)) == m1);
    }
}

/// With no key ever pressed, the input window times out into `Booting`.
proof fn lemma_phase_waiting(m: BiosModel, n: nat)
    requires
        m.state == BiosState::WaitingForInput,
        m.ticks <= 250,
        n == 251 - m.ticks,
    ensures
        spec_bios_run(m, spec_nones(n)) == (BiosModel {
            state: BiosState::Booting,
            ticks: 251,
            ..m
        }),
    decreases n,
{
    let s = spec_nones(n);
    let m1 = spec_bios_step(m, None);
    assert(s.first() == Option::<Seq<char>>::None);
    assert(spec_bios_run(m, s) == spec_bios_run(m1, s.drop_first()));
    assert(s.drop_first() =~= spec_nones((n - 1) as nat));
    if m.ticks + 1 <= 250 {
        lemma_phase_waiting(m1, (n - 1) as nat);
    } else {
        assert(m1 == BiosModel { state: BiosState::Booting, ticks: 251, ..m });
        assert(spec_bios_run(m1, spec_nones(0)) == m1);
    }
}

/// The boot delay runs out after at most 61 silent ticks.
proof fn lemma_phase_booting(m: BiosModel, n: nat)
    requires
        m.state == BiosState::Booting,
        n == if m.ticks > 60 {
            1
        } else {
            61 - m.ticks
        },
        m.ticks >= 0,
    ensures
        spec_bios_run(m, spec_nones(n)).state == BiosState::Done,
    decreases n,
{
    assert(spec_nones(n).drop_first() =~= spec_nones((n - 1) as nat));
    if !(m.ticks + 1 > 60) {
        lemma_phase_booting(spec_bios_step(m, None), (n - 1) as nat);
    } else {
        let m1 = spec_bios_step(m, None);
        assert(m1.state == BiosState::Done);
        lemma_bios_done_stays(m1, (n - 1) as nat);
    }
}

/// `Done` is terminal: however many silent ticks follow, it stays.
proof fn lemma_bios_done_stays(m: BiosModel, n: nat)
    requires
        m.state == BiosState::Done,
    ensures
        spec_bios_run(m, spec_nones(n)).state == BiosState::Done,
    decreases n,
{
    if n > 0 {
        assert(spec_nones(n).drop_first() =~= spec_nones((n - 1) as nat));
        lemma_bios_done_stays(spec_bios_step(m, None), (n - 1) as nat);
    }
}

/// The timeout path: with no input at all, a freshly powered-on
/// sequencer reaches `Done` in exactly 252 ticks — a fixed bound, whatever
/// happens afterwards.
pub proof fn lemma_bios_reaches_done_without_input()
    ensures
        spec_bios_run(spec_bios_init(), spec_nones(252)).state == BiosState::Done,
{
    let m0 = spec_bios_init();
    lemma_phase_power_on(m0, 10);
    let m1 = spec_bios_run(m0, spec_nones(10));
    lemma_phase_mem_test(m1, 100);
    let m2 = spec_bios_run(m1, spec_nones(100));
    lemma_phase_waiting(m2, 141);
    let m3 = spec_bios_run(m2, spec_nones(141));
    lemma_phase_booting(m3, 1);
    assert(spec_nones(10) + spec_nones(100) =~= spec_nones(110));
    lemma_bios_run_concat(m0, spec_nones(10), spec_nones(100));
    assert(spec_nones(110) + spec_nones(141) =~= spec_nones(251));
    lemma_bios_run_concat(m0, spec_nones(110), spec_nones(141));
    assert(spec_nones(251) + spec_nones(1) =~= spec_nones(252));
    lemma_bios_run_concat(m0, spec_nones(251), spec_nones(1));
}

/// The setup path: from the input window, one keystroke opens the menu
/// and a selector key boots the chosen target; `Done` comes within 62
/// further ticks of the selection.
pub proof fn lemma_bios_reaches_done_through_setup(
    m: BiosModel,
    any_key: Seq<char>,
    selector: Seq<char>,
)
    requires
        m.state == BiosState::WaitingForInput,
        selector == "1"@ || selector == "2"@,
    ensures
        spec_bios_run(
            m,
            seq![Some(any_key), Some(selector)] + spec_nones(61),
        ).state == BiosState::Done,
{
    let s: Seq<Option<Seq<char>>> = seq![Some(any_key), Some(selector)] + spec_nones(61);
    let m1 = spec_bios_step(m, Some(any_key));
    assert(m1.state == BiosState::Setup);
    let m2 = spec_bios_step(m1, Some(selector));
    assert(m2.state == BiosState::Booting && m2.ticks == 0);
    lemma_phase_booting(m2, 61);
    assert(s.first() == Some(any_key));
    assert(spec_bios_run(m, s) == spec_bios_run(m1, s.drop_first()));
    let s1 = seq![Some(selector)] + spec_nones(61);
    assert(s.drop_first() =~= s1);
    assert(s1.first() == Some(selector));
    assert(spec_bios_run(m1, s1) == spec_bios_run(m2, s1.drop_first()));
    assert(s1.drop_first() =~= spec_nones(61));
}

} // verus!
