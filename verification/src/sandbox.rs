//! The guest process sandbox's slot discipline. The sandbox owns one
//! active slot and one staged "next" slot. While the active slot is
//! executing a step, a newly loaded process may not replace it in place:
//! it is staged in the next slot and promoted when the step finishes.
//! That staging turns a would-be double claim on the active slot into a
//! deferred, safe assignment.

use vstd::prelude::*;

verus! {

/// What the host reports after instantiating a guest binary and running
/// its initialization entry point.
pub enum LoadOutcome {
    /// The binary was malformed or unsupported.
    Invalid { message: String },
    /// Required imports or exports were missing.
    InstantiationFailed { message: String },
    /// The module's start section trapped.
    StartFailed { message: String },
    /// The initialization entry point trapped. `legacy` says the
    /// single-shot entry point ran instead of the usual one.
    TrapDuringInit { message: String, legacy: bool },
    /// The guest initialized; `has_step` says it exports a per-tick step
    /// function and stays resident.
    Ready { has_step: bool },
}

/// The error line a failed load surfaces, prefixed by which stage
/// failed; nothing for a guest that initialized.
pub open spec fn spec_load_error_text(outcome: LoadOutcome) -> Option<Seq<char>> {
    match outcome {
        LoadOutcome::Invalid { message } => Some("failed to create module: "@ + message@),
        LoadOutcome::InstantiationFailed { message } => Some("failed to instantiate: "@ + message@),
        LoadOutcome::StartFailed { message } => Some("failed to start: "@ + message@),
        LoadOutcome::TrapDuringInit { message, legacy } => Some(
            (if legacy {
                "start error: "@
            } else {
                "init error: "@
            }) + message@,
        ),
        LoadOutcome::Ready { has_step } => None,
    }
}

/// The slot bookkeeping for guest processes. Process identities are
/// plain numbers; what they execute lives outside the sandbox's view.
pub struct Sandbox {
    /// The resident process, stepped once per tick.
    pub active: Option<u64>,
    /// A process staged during a reentrant load, promoted after the
    /// current step returns.
    pub next: Option<u64>,
    /// Whether the active slot is executing a step right now.
    pub stepping: bool,
    /// The next unused process identity.
    pub next_pid: u64,
}

impl Sandbox {
    /// The slot invariant: a process is staged only while a step is in
    /// flight, so promotion can never be missed.
    pub open spec fn wf(self) -> bool {
        !self.stepping ==> self.next is None
    }

    pub fn new() -> (s: Sandbox)
        ensures
            s.active is None,
            s.next is None,
            !s.stepping,
            s.next_pid == 0,
            s.wf(),
    {
        Sandbox { active: None, next: None, stepping: false, next_pid: 0 }
    }

    /// Hand out a fresh process identity.
    pub fn fresh_pid(&mut self) -> (pid: u64)
        requires
            old(self).next_pid < u64::MAX,
        ensures
            pid == old(self).next_pid,
            final(self).next_pid == old(self).next_pid + 1,
            final(self).active == old(self).active,
            final(self).next == old(self).next,
            final(self).stepping == old(self).stepping,
    {
        let pid = self.next_pid;
        self.next_pid = self.next_pid + 1;
        pid
    }

    /// Install a loaded process. A one-shot guest (no step export) never
    /// occupies a slot. A resident guest goes into the active slot, or
    /// into the next slot when the active slot is executing: the active
    /// slot is never overwritten while it is logically borrowed, and the
    /// staged process is promoted only when the running step returns.
    pub fn install(&mut self, pid: u64, has_step: bool)
        ensures
            !has_step ==> *final(self) == *old(self),
            has_step && !old(self).stepping ==> final(self).active == Some(pid) && final(self).next
                == old(self).next,
            has_step && old(self).stepping ==> final(self).active == old(self).active
                && final(self).next == Some(pid),
            final(self).stepping == old(self).stepping,
            final(self).next_pid == old(self).next_pid,
            old(self).wf() ==> final(self).wf(),
    {
        if has_step {
            if !self.stepping {
                self.active = Some(pid);
            } else {
                self.next = Some(pid);
            }
        }
    }

    /// Borrow the active slot for one step. Returns the process to step,
    /// if any; while it runs, the slot counts as claimed.
    pub fn begin_step(&mut self) -> (r: Option<u64>)
        requires
            !old(self).stepping,
        ensures
            r == old(self).active,
            final(self).active == old(self).active,
            final(self).next == old(self).next,
            final(self).next_pid == old(self).next_pid,
            final(self).stepping == (r is Some),
            old(self).wf() ==> final(self).wf(),
    {
        match self.active {
            Some(pid) => {
                self.stepping = true;
                Some(pid)
            },
            None => None,
        }
    }

    /// Release the active slot after a step. A trap discards the
    /// process; in any case a staged process is then promoted, replacing
    /// whatever remained in the active slot.
    pub fn finish_step(&mut self, trapped: bool)
        requires
            old(self).stepping,
        ensures
            !final(self).stepping,
            final(self).active == if old(self).next is Some {
                old(self).next
            } else if trapped {
                None::<u64>
            } else {
                old(self).active
            },
            final(self).next is None,
            final(self).next_pid == old(self).next_pid,
            final(self).wf(),
    {
        self.stepping = false;
        if trapped {
            self.active = None;
        }
        if self.next.is_some() {
            self.active = self.next;
            self.next = None;
        }
    }
}

/// Which initialization entry point a freshly instantiated guest runs:
/// the usual one when it exists, else the legacy single-shot one, else
/// none.
#[derive(Clone, Copy, Debug, PartialEq, Eq, Structural)]
pub enum EntryChoice {
    Init,
    Legacy,
    NoEntry,
}

/// Decide the initialization entry point from which exports the guest
/// offers.
pub fn choose_entry(has_init: bool, has_start: bool) -> (r: EntryChoice)
    ensures
        r == if has_init {
            EntryChoice::Init
        } else if has_start {
            EntryChoice::Legacy
        } else {
            EntryChoice::NoEntry
        },
{
    if has_init {
        EntryChoice::Init
    } else if has_start {
        EntryChoice::Legacy
    } else {
        EntryChoice::NoEntry
    }
}

/// A process loaded during a step never shows in the active slot until
/// the step that was running finishes: staging at install, then
/// promotion at the step's end, with the staged process winning the
/// slot.
pub proof fn lemma_reentrant_load_is_deferred(s0: Sandbox, s1: Sandbox, s2: Sandbox, pid: u64)
    requires
        s0.stepping,
        // what `install` of a resident guest ensures while a step runs:
        s1.active == s0.active && s1.next == Some(pid) && s1.stepping,
        // what `finish_step` without a trap then ensures:
        s2.active == (if s1.next is Some {
            s1.next
        } else {
            s1.active
        }) && !s2.stepping,
    ensures
        s1.active == s0.active,
        s2.active == Some(pid),
{
}

} // verus!
