//! Watching a child that was resumed: what its output and its exceptions mean, the code that is put
//! into it, and how its end is reported.

use crate::bytes;
use crate::memory::{EXCEPTION_BREAKPOINT, STILL_ACTIVE};
use crate::numbers;
use crate::process_fork::ForkFullGprSnapshot;
use crate::process_spawn;
use crate::process_spawn::{OutputWatch, PipeEvent, WatchStep};
use crate::text;
use vstd::prelude::*;

verus! {

/// The word that the injected code writes.
pub const INJECTED_STUB_MARKER_WORD: u32 = 0x1187_1187;

/// The exit code with which the injected code ends the child.
pub const INJECTED_STUB_EXIT_CODE: u32 = 0x1187_2118;

/// Where in the injected page the marker word stands.
pub const STUB_MARKER_OFF: u64 = 0x100;

/// The size of the injected page.
pub const STUB_PAGE_LEN: u64 = 0x1000;

/// The number of regions after which a search for a module gives up.
pub const MAX_SCANNED_REGIONS: u32 = 4096;

/// The exit code of the probe child: an exit with status 42.
pub const ENCODED_EXIT_42: u32 = 0xC0DE_002A;

/// Marks a probe child.
pub const WAIT4_PROBE_CHILD_ENV_VAR: &'static str = "LITEBOX_INTERNAL_WAIT4_PROBE_CHILD";

/// Carries the exit code of a probe child.
pub const WAIT4_PROBE_EXIT_CODE_ENV_VAR: &'static str = "LITEBOX_INTERNAL_WAIT4_PROBE_EXIT_CODE";

/// How the watch on a child's output ended.
#[derive(Debug, Clone, Copy, PartialEq, Eq, Structural)]
pub enum WatchEnd {
    /// The time was up.
    Deadline,
    /// The last read meant this.
    Step(WatchStep),
}

/// What came of resuming a child and waiting for its marker.
#[derive(Debug, PartialEq, Eq)]
pub enum ResumeVerdict {
    TimedOut,
    ReadFailed { error: u32 },
    /// The child has started up; this is what it wrote before its marker.
    Ready { before: Vec<u8> },
    /// The child has ended, or closed its output, without its marker.
    NotReady,
}

/// Judges a child that was resumed to run its own start-up.
pub fn resume_and_observe(watch: &OutputWatch, end: WatchEnd, marker: &[u8]) -> (r: ResumeVerdict)
    ensures
        match end {
            WatchEnd::Deadline => r is TimedOut,
            WatchEnd::Step(WatchStep::Broken { error }) => r == (ResumeVerdict::ReadFailed {
                error,
            }),
            WatchEnd::Step(_) => if bytes::occurs(watch.collected@, marker@) {
                r matches ResumeVerdict::Ready { before } && process_spawn::is_before_first(
                    watch.collected@,
                    marker@,
                    before@,
                )
            } else {
                r is NotReady
            },
        },
{
    match end {
        WatchEnd::Deadline => ResumeVerdict::TimedOut,
        WatchEnd::Step(WatchStep::Broken { error }) => ResumeVerdict::ReadFailed { error },
        WatchEnd::Step(_) => if watch.saw(marker) {
            ResumeVerdict::Ready { before: watch.before_marker(marker) }
        } else {
            ResumeVerdict::NotReady
        },
    }
}

/// What came of a child that runs a guest thread of its own.
#[derive(Debug, Clone, Copy, PartialEq, Eq, Structural)]
pub struct TaskVerdict {
    /// The child closed its output.
    pub closed: bool,
    /// The guest thread has ended.
    pub saw_return: bool,
}

/// Judges a child that was resumed to run a guest thread.
pub fn task_resume_and_observe(watch: &OutputWatch, end: WatchEnd, marker: &[u8]) -> (r: TaskVerdict)
    ensures
        r == (TaskVerdict {
            closed: end == WatchEnd::Step(WatchStep::Closed),
            saw_return: bytes::occurs(watch.collected@, marker@),
        }),
{
    let closed = match end {
        WatchEnd::Step(WatchStep::Closed) => true,
        _ => false,
    };
    TaskVerdict { closed, saw_return: watch.saw(marker) }
}

/// What is to be done next with a child that is given registers. Each step names the method that
/// takes its outcome.
#[derive(Debug, Clone, Copy, PartialEq, Eq, Structural)]
pub enum InjectPhase {
    /// Resume the child as it is: [`Injection::on_started`].
    Start,
    /// Read its output until it has started up: [`Injection::on_output`],
    /// [`Injection::on_deadline`].
    AwaitReady,
    /// Give the child time to park, and suspend it: [`Injection::on_suspended`].
    Suspend,
    /// Put the code into the child: [`Injection::on_stub`].
    WriteStub,
    /// Set the registers: [`Injection::on_context`].
    SetContext,
    /// Attach a debugger: [`Injection::on_attached`].
    Attach,
    /// Resume the child: [`Injection::on_resumed`].
    Resume,
    /// Watch its exceptions: [`Injection::on_observed`].
    Observe,
    /// Detach the debugger: [`Injection::on_detached`].
    Detach,
    /// Wait for its end: [`Injection::on_waited`].
    Await,
    /// Read what output is left: [`Injection::on_drained`].
    Drain,
    /// Nothing is left to do.
    Done,
}

/// A child that is given registers: either the guest's own, once it has started up and parked, or
/// those that make it run injected code from its first instruction on.
pub struct Injection {
    /// Whether it is given the guest's own registers.
    pub real: bool,
    /// Whether its output can be read.
    pub has_stdout: bool,
    pub phase: InjectPhase,
    /// Whether a debugger is attached now.
    pub attached: bool,
    /// Whether the resume after the registers were set failed.
    pub resume_failed: bool,
    /// Its output until it had started up.
    pub watch: OutputWatch,
    /// Its output after its end.
    pub rest: Vec<u8>,
}

impl Injection {
    /// What holds in every phase: a debugger is attached only while the child is resumed and
    /// watched, and a child is given the guest's registers only after it has started up.
    pub open spec fn wf(self, marker: Seq<u8>) -> bool {
        &&& self.attached ==> self.phase is Resume || self.phase is Observe || self.phase is Detach
        &&& self.phase is Observe || self.phase is Detach ==> self.attached
        &&& self.real && (self.phase is Suspend || self.phase is SetContext || self.phase is Attach
            || self.phase is Resume || self.phase is Observe || self.phase is Detach
            || self.phase is Await || self.phase is Drain) ==> bytes::occurs(
            self.watch.collected@,
            marker,
        )
        &&& !self.real ==> !(self.phase is Start || self.phase is AwaitReady || self.phase is Suspend
            || self.phase is Drain)
    }

    /// Everything but the phase is as in `other`.
    pub open spec fn differs_in_phase(self, other: Self) -> bool {
        &&& self.real == other.real
        &&& self.has_stdout == other.has_stdout
        &&& self.attached == other.attached
        &&& self.resume_failed == other.resume_failed
        &&& self.watch.collected@ == other.watch.collected@
        &&& self.rest@ == other.rest@
    }

    /// Begins to give a child the guest's own registers.
    pub fn real_resume_and_observe(has_stdout: bool) -> (r: Self)
        ensures
            r.real,
            r.has_stdout == has_stdout,
            r.phase == InjectPhase::Start,
            !r.attached,
            !r.resume_failed,
            r.watch.collected@ == Seq::<u8>::empty(),
            r.rest@ == Seq::<u8>::empty(),
            forall|marker: Seq<u8>| #[trigger] r.wf(marker),
    {
        Injection {
            real: true,
            has_stdout,
            phase: InjectPhase::Start,
            attached: false,
            resume_failed: false,
            watch: OutputWatch::new(),
            rest: Vec::new(),
        }
    }

    /// Begins to make a child run injected code.
    pub fn inject_and_observe() -> (r: Self)
        ensures
            !r.real,
            r.phase == InjectPhase::WriteStub,
            !r.attached,
            !r.resume_failed,
            r.watch.collected@ == Seq::<u8>::empty(),
            r.rest@ == Seq::<u8>::empty(),
            forall|marker: Seq<u8>| #[trigger] r.wf(marker),
    {
        Injection {
            real: false,
            has_stdout: false,
            phase: InjectPhase::WriteStub,
            attached: false,
            resume_failed: false,
            watch: OutputWatch::new(),
            rest: Vec::new(),
        }
    }

    /// The child was resumed as it is; the largest count says that it failed.
    pub fn on_started(&mut self, count: u32)
        requires
            old(self).phase == InjectPhase::Start,
        ensures
            final(self).differs_in_phase(*old(self)),
            final(self).phase == if count == u32::MAX || !old(self).has_stdout {
                InjectPhase::Done
            } else {
                InjectPhase::AwaitReady
            },
            forall|marker: Seq<u8>| old(self).wf(marker) ==> #[trigger] final(self).wf(marker),
    {
        self.phase = if count == u32::MAX || !self.has_stdout {
            InjectPhase::Done
        } else {
            InjectPhase::AwaitReady
        };
    }

    /// A read from the output of a child that has not started up. Its end, or a failure, ends the
    /// attempt.
    pub fn on_output(&mut self, event: PipeEvent, marker: &[u8])
        requires
            old(self).phase == InjectPhase::AwaitReady,
            old(self).wf(marker@),
        ensures
            final(self).wf(marker@),
            final(self).real == old(self).real,
            final(self).has_stdout == old(self).has_stdout,
            final(self).attached == old(self).attached,
            final(self).resume_failed == old(self).resume_failed,
            final(self).rest@ == old(self).rest@,
            final(self).watch.collected@ == old(self).watch.collected@ + match event {
                PipeEvent::Data(data) => data@,
                PipeEvent::Failed(_) => Seq::empty(),
            },
            final(self).phase == match event {
                PipeEvent::Data(data) => if data@.len() == 0 {
                    InjectPhase::Done
                } else if bytes::occurs(final(self).watch.collected@, marker@) {
                    InjectPhase::Suspend
                } else {
                    InjectPhase::AwaitReady
                },
                PipeEvent::Failed(_) => InjectPhase::Done,
            },
    {
        let ghost before = self.watch.collected@;
        let step = self.watch.on_read(event, marker);
        self.phase = match step {
            WatchStep::More => InjectPhase::AwaitReady,
            WatchStep::Found => InjectPhase::Suspend,
            _ => InjectPhase::Done,
        };
        assert(before + Seq::<u8>::empty() =~= before);
    }

    /// The time for the child to start up has passed.
    pub fn on_deadline(&mut self)
        requires
            old(self).phase == InjectPhase::AwaitReady,
        ensures
            final(self).differs_in_phase(*old(self)),
            final(self).phase == InjectPhase::Done,
            forall|marker: Seq<u8>| old(self).wf(marker) ==> #[trigger] final(self).wf(marker),
    {
        self.phase = InjectPhase::Done;
    }

    /// The child was suspended; the largest count says that it failed.
    pub fn on_suspended(&mut self, count: u32)
        requires
            old(self).phase == InjectPhase::Suspend,
        ensures
            final(self).differs_in_phase(*old(self)),
            final(self).phase == if count == u32::MAX {
                InjectPhase::Done
            } else {
                InjectPhase::SetContext
            },
            forall|marker: Seq<u8>| old(self).wf(marker) ==> #[trigger] final(self).wf(marker),
    {
        self.phase = if count == u32::MAX {
            InjectPhase::Done
        } else {
            InjectPhase::SetContext
        };
    }

    /// The code was put into the child, or not.
    pub fn on_stub(&mut self, ok: bool)
        requires
            old(self).phase == InjectPhase::WriteStub,
            !old(self).real,
        ensures
            final(self).differs_in_phase(*old(self)),
            final(self).phase == if ok {
                InjectPhase::SetContext
            } else {
                InjectPhase::Done
            },
            forall|marker: Seq<u8>| old(self).wf(marker) ==> #[trigger] final(self).wf(marker),
    {
        self.phase = if ok {
            InjectPhase::SetContext
        } else {
            InjectPhase::Done
        };
    }

    /// The registers were set, or not.
    pub fn on_context(&mut self, ok: bool)
        requires
            old(self).phase == InjectPhase::SetContext,
        ensures
            final(self).differs_in_phase(*old(self)),
            final(self).phase == if ok {
                InjectPhase::Attach
            } else {
                InjectPhase::Done
            },
            forall|marker: Seq<u8>| old(self).wf(marker) ==> #[trigger] final(self).wf(marker),
    {
        self.phase = if ok {
            InjectPhase::Attach
        } else {
            InjectPhase::Done
        };
    }

    /// A debugger was attached, or not; the child is resumed in either case.
    pub fn on_attached(&mut self, ok: bool)
        requires
            old(self).phase == InjectPhase::Attach,
        ensures
            final(self).differs_in_phase((Injection { attached: ok, ..*old(self) })),
            final(self).phase == InjectPhase::Resume,
            forall|marker: Seq<u8>| old(self).wf(marker) ==> #[trigger] final(self).wf(marker),
    {
        self.attached = ok;
        self.phase = InjectPhase::Resume;
    }

    /// The child was resumed with its registers; the largest count says that it failed. Without a
    /// debugger there is nothing to watch and nothing to detach.
    pub fn on_resumed(&mut self, count: u32)
        requires
            old(self).phase == InjectPhase::Resume,
        ensures
            final(self).differs_in_phase(
                (Injection { resume_failed: count == u32::MAX, ..*old(self) }),
            ),
            final(self).phase == if count == u32::MAX {
                if old(self).attached {
                    InjectPhase::Detach
                } else {
                    InjectPhase::Done
                }
            } else if old(self).attached {
                InjectPhase::Observe
            } else {
                InjectPhase::Await
            },
            forall|marker: Seq<u8>| old(self).wf(marker) ==> #[trigger] final(self).wf(marker),
    {
        self.resume_failed = count == u32::MAX;
        self.phase = if count == u32::MAX {
            if self.attached {
                InjectPhase::Detach
            } else {
                InjectPhase::Done
            }
        } else if self.attached {
            InjectPhase::Observe
        } else {
            InjectPhase::Await
        };
    }

    /// The child's exceptions were watched.
    pub fn on_observed(&mut self)
        requires
            old(self).phase == InjectPhase::Observe,
        ensures
            final(self).differs_in_phase(*old(self)),
            final(self).phase == InjectPhase::Detach,
            forall|marker: Seq<u8>| old(self).wf(marker) ==> #[trigger] final(self).wf(marker),
    {
        self.phase = InjectPhase::Detach;
    }

    /// The debugger was detached. A child that could not be resumed is not waited for.
    pub fn on_detached(&mut self)
        requires
            old(self).phase == InjectPhase::Detach,
        ensures
            final(self).differs_in_phase((Injection { attached: false, ..*old(self) })),
            final(self).phase == if old(self).resume_failed {
                InjectPhase::Done
            } else {
                InjectPhase::Await
            },
            forall|marker: Seq<u8>| old(self).wf(marker) ==> #[trigger] final(self).wf(marker),
    {
        self.attached = false;
        self.phase = if self.resume_failed {
            InjectPhase::Done
        } else {
            InjectPhase::Await
        };
    }

    /// The child has ended, or the wait for it has.
    pub fn on_waited(&mut self)
        requires
            old(self).phase == InjectPhase::Await,
        ensures
            final(self).differs_in_phase(*old(self)),
            final(self).phase == if old(self).real {
                InjectPhase::Drain
            } else {
                InjectPhase::Done
            },
            forall|marker: Seq<u8>| old(self).wf(marker) ==> #[trigger] final(self).wf(marker),
    {
        self.phase = if self.real {
            InjectPhase::Drain
        } else {
            InjectPhase::Done
        };
    }

    /// A read of what output was left, if there was any. The end, or a failure, ends the watch.
    pub fn on_drained(&mut self, event: Option<PipeEvent>)
        requires
            old(self).phase == InjectPhase::Drain,
        ensures
            match event {
                Some(PipeEvent::Data(data)) => final(self).rest@ == old(self).rest@ + data@
                    && final(self).phase == if data@.len() == 0 {
                    InjectPhase::Done
                } else {
                    InjectPhase::Drain
                },
                _ => final(self).rest@ == old(self).rest@ && final(self).phase
                    == InjectPhase::Done,
            },
            final(self).real == old(self).real,
            final(self).has_stdout == old(self).has_stdout,
            final(self).attached == old(self).attached,
            final(self).resume_failed == old(self).resume_failed,
            final(self).watch.collected@ == old(self).watch.collected@,
            forall|marker: Seq<u8>| old(self).wf(marker) ==> #[trigger] final(self).wf(marker),
    {
        match event {
            Some(PipeEvent::Data(data)) => {
                let empty: bool = data.len() == 0;
                bytes::push_all(&mut self.rest, data.as_slice());
                if empty {
                    self.phase = InjectPhase::Done;
                }
            },
            _ => {
                self.phase = InjectPhase::Done;
            },
        }
    }
}

/// Whether the phase comes after the registers of the child were set.
pub open spec fn is_injected(phase: InjectPhase) -> bool {
    phase is Attach || phase is Resume || phase is Observe || phase is Detach || phase is Await
        || phase is Drain
}

/// The guest's registers are set only in a child that has shown its marker, and at the end no
/// debugger is left attached.
pub proof fn law_injection_is_guarded(injection: Injection, marker: Seq<u8>)
    requires
        injection.wf(marker),
    ensures
        injection.real && (injection.phase is SetContext || is_injected(injection.phase))
            ==> bytes::occurs(injection.watch.collected@, marker),
        injection.phase is Done ==> !injection.attached,
{
}

/// Whether an injection has succeeded: the marker word was seen, and the child ended with the exit
/// code of the injected code.
pub fn injection_succeeded(saw_marker: bool, exit_code: Option<u32>) -> (r: bool)
    ensures
        r == (saw_marker && exit_code == Some(INJECTED_STUB_EXIT_CODE)),
{
    match exit_code {
        Some(code) => saw_marker && code == INJECTED_STUB_EXIT_CODE,
        None => false,
    }
}

/// What to do about a debug event.
#[derive(Debug, Clone, Copy, PartialEq, Eq, Structural)]
pub enum DebugStep {
    /// Continue the child.
    Continue,
    /// Report the exception and leave it to the child.
    Report,
    /// Read the marker word, hand it to [`MarkerObserver::on_marker`] and continue the child.
    CheckMarker,
    /// Leave the exception to the child and stop watching.
    Stop,
}

/// Watches the exceptions of a child that was given the guest's registers.
#[derive(Debug, Clone, Copy, PartialEq, Eq, Structural)]
pub struct FaultObserver {
    pub child_pid: u32,
    /// Whether the breakpoint that attaching brings about has passed.
    pub skipped: bool,
}

impl FaultObserver {
    /// Begins to watch.
    pub fn new(child_pid: u32) -> (r: Self)
        ensures
            r == (FaultObserver { child_pid, skipped: false }),
    {
        FaultObserver { child_pid, skipped: false }
    }

    /// Takes in an event of the process `pid`, with the exception's code and whether it is seen for
    /// the first time. The first breakpoint is the one that attaching brings about.
    pub fn observe_real_resume_fault(&mut self, pid: u32, exception: Option<(u32, bool)>) -> (r:
        DebugStep)
        ensures
            final(self).child_pid == old(self).child_pid,
            ({
                let attach = exception == Some((EXCEPTION_BREAKPOINT, true)) && pid
                    == old(self).child_pid && !old(self).skipped;
                &&& final(self).skipped == (old(self).skipped || attach)
                &&& r == if pid != old(self).child_pid || exception is None || attach {
                    DebugStep::Continue
                } else {
                    DebugStep::Report
                }
            }),
    {
        if pid != self.child_pid {
            return DebugStep::Continue;
        }
        match exception {
            None => DebugStep::Continue,
            Some((code, first_chance)) => if !self.skipped && code == EXCEPTION_BREAKPOINT
                && first_chance {
                self.skipped = true;
                DebugStep::Continue
            } else {
                DebugStep::Report
            },
        }
    }
}

/// Watches the exceptions of a child that runs injected code.
#[derive(Debug, Clone, Copy, PartialEq, Eq, Structural)]
pub struct MarkerObserver {
    pub saw_marker: bool,
}

impl MarkerObserver {
    /// Begins to watch.
    pub fn new() -> (r: Self)
        ensures
            !r.saw_marker,
    {
        MarkerObserver { saw_marker: false }
    }

    /// Takes in an event, with the exception's code. At a breakpoint the marker word is looked at;
    /// any other exception ends the watch.
    pub fn capture_first_exception_context(&self, exception: Option<u32>) -> (r: DebugStep)
        ensures
            r == match exception {
                None => DebugStep::Continue,
                Some(code) => if code == EXCEPTION_BREAKPOINT {
                    DebugStep::CheckMarker
                } else {
                    DebugStep::Stop
                },
            },
    {
        match exception {
            None => DebugStep::Continue,
            Some(code) => if code == EXCEPTION_BREAKPOINT {
                DebugStep::CheckMarker
            } else {
                DebugStep::Stop
            },
        }
    }

    /// The word at the marker's place, if all of it could be read. Once seen, the marker stays seen.
    pub fn on_marker(&mut self, word: Option<u32>)
        ensures
            final(self).saw_marker == (old(self).saw_marker || word == Some(
                INJECTED_STUB_MARKER_WORD,
            )),
    {
        match word {
            Some(w) => if w == INJECTED_STUB_MARKER_WORD {
                self.saw_marker = true;
            },
            None => {},
        }
    }
}

/// The injected code: it writes the marker word, stops at a breakpoint, and ends the process with
/// the exit code by the function at `terminate`.
pub open spec fn stub_bytes(base: u64, terminate: u64) -> Seq<u8> {
    seq![0x48u8, 0xB8] + bytes::le_bytes((base + STUB_MARKER_OFF) as nat, 8) + seq![0xC7u8, 0x00]
        + bytes::le_bytes(INJECTED_STUB_MARKER_WORD as nat, 4) + seq![0xCCu8] + seq![
        0x48u8,
        0x83,
        0xEC,
        0x28,
    ] + seq![0x48u8, 0x83, 0xC9, 0xFF] + seq![0xBAu8] + bytes::le_bytes(
        INJECTED_STUB_EXIT_CODE as nat,
        4,
    ) + seq![0x48u8, 0xB8] + bytes::le_bytes(terminate as nat, 8) + seq![0xFFu8, 0xD0] + seq![
        0x0Fu8,
        0x0B,
    ]
}

/// Writes the injected code for a page at `base`.
pub fn write_injected_stub(base: u64, terminate: u64) -> (r: Vec<u8>)
    requires
        base + STUB_PAGE_LEN <= u64::MAX,
    ensures
        r@ == stub_bytes(base, terminate),
{
    let mut code: Vec<u8> = Vec::new();
    code.push(0x48);
    code.push(0xB8);
    assert(code@ =~= seq![0x48u8, 0xB8]);
    bytes::push_le(&mut code, base + STUB_MARKER_OFF, 8);
    let ghost a = code@;
    code.push(0xC7);
    code.push(0x00);
    assert(code@ =~= a + seq![0xC7u8, 0x00]);
    bytes::push_le(&mut code, INJECTED_STUB_MARKER_WORD as u64, 4);
    let ghost b = code@;
    code.push(0xCC);
    assert(code@ =~= b + seq![0xCCu8]);
    let ghost c = code@;
    code.push(0x48);
    code.push(0x83);
    code.push(0xEC);
    code.push(0x28);
    assert(code@ =~= c + seq![0x48u8, 0x83, 0xEC, 0x28]);
    let ghost d = code@;
    code.push(0x48);
    code.push(0x83);
    code.push(0xC9);
    code.push(0xFF);
    assert(code@ =~= d + seq![0x48u8, 0x83, 0xC9, 0xFF]);
    let ghost e = code@;
    code.push(0xBA);
    assert(code@ =~= e + seq![0xBAu8]);
    bytes::push_le(&mut code, INJECTED_STUB_EXIT_CODE as u64, 4);
    let ghost f = code@;
    code.push(0x48);
    code.push(0xB8);
    assert(code@ =~= f + seq![0x48u8, 0xB8]);
    bytes::push_le(&mut code, terminate, 8);
    let ghost g = code@;
    code.push(0xFF);
    code.push(0xD0);
    assert(code@ =~= g + seq![0xFFu8, 0xD0]);
    let ghost h = code@;
    code.push(0x0F);
    code.push(0x0B);
    assert(code@ =~= h + seq![0x0Fu8, 0x0B]);
    code
}

/// The injected code ends before the marker word, so that writing the one does not change the other.
pub proof fn law_stub_fits(base: u64, terminate: u64)
    ensures
        stub_bytes(base, terminate).len() == 44,
        stub_bytes(base, terminate).len() <= STUB_MARKER_OFF,
        STUB_MARKER_OFF + 4 <= STUB_PAGE_LEN,
{
    bytes::lemma_le_bytes_len((base + STUB_MARKER_OFF) as nat, 8);
    bytes::lemma_le_bytes_len(INJECTED_STUB_MARKER_WORD as nat, 4);
    bytes::lemma_le_bytes_len(INJECTED_STUB_EXIT_CODE as nat, 4);
    bytes::lemma_le_bytes_len(terminate as nat, 8);
}

/// The injected code names its operands: the address of the marker word, the word, the exit code and
/// the address of the function that ends the process, each in the place of its instruction, with the
/// breakpoint between the marker and the end.
pub proof fn law_stub_names_its_operands(base: u64, terminate: u64)
    ensures
        ({
            let code = stub_bytes(base, terminate);
            &&& code.len() == 44
            &&& code[0] == 0x48 && code[1] == 0xB8
            &&& code.subrange(2, 10) == bytes::le_bytes((base + 0x100) as nat, 8)
            &&& code[10] == 0xC7 && code[11] == 0x00
            &&& code.subrange(12, 16) == bytes::le_bytes(0x1187_1187, 4)
            &&& code[16] == 0xCC
            &&& code[25] == 0xBA
            &&& code.subrange(26, 30) == bytes::le_bytes(0x1187_2118, 4)
            &&& code[30] == 0x48 && code[31] == 0xB8
            &&& code.subrange(32, 40) == bytes::le_bytes(terminate as nat, 8)
            &&& code[40] == 0xFF && code[41] == 0xD0
        }),
{
    law_stub_fits(base, terminate);
    bytes::lemma_le_bytes_len((base + STUB_MARKER_OFF) as nat, 8);
    bytes::lemma_le_bytes_len(INJECTED_STUB_MARKER_WORD as nat, 4);
    bytes::lemma_le_bytes_len(INJECTED_STUB_EXIT_CODE as nat, 4);
    bytes::lemma_le_bytes_len(terminate as nat, 8);
    let code = stub_bytes(base, terminate);
    assert(code.subrange(2, 10) =~= bytes::le_bytes((base + 0x100) as nat, 8));
    assert(code.subrange(12, 16) =~= bytes::le_bytes(0x1187_1187, 4));
    assert(code.subrange(26, 30) =~= bytes::le_bytes(0x1187_2118, 4));
    assert(code.subrange(32, 40) =~= bytes::le_bytes(terminate as nat, 8));
}

/// Whether the code was written whole.
pub fn stub_written(ok: bool, written: usize, len: usize) -> (r: bool)
    ensures
        r == (ok && written == len),
{
    ok && written == len
}

/// A thread's registers.
#[derive(Debug, Clone, Copy, PartialEq, Eq, Structural)]
pub struct ThreadContext {
    pub r15: u64,
    pub r14: u64,
    pub r13: u64,
    pub r12: u64,
    pub rbp: u64,
    pub rbx: u64,
    pub r11: u64,
    pub r10: u64,
    pub r9: u64,
    pub r8: u64,
    pub rax: u64,
    pub rcx: u64,
    pub rdx: u64,
    pub rsi: u64,
    pub rdi: u64,
    pub rip: u64,
    pub rsp: u64,
    pub eflags: u32,
    pub cs: u16,
    pub ss: u16,
}

/// The registers of a thread that resumes from a snapshot. The flags and the segment selectors are
/// narrower in a thread than in the snapshot, and keep their low bits.
pub fn set_child_full_context(g: &ForkFullGprSnapshot) -> (r: ThreadContext)
    ensures
        r == (ThreadContext {
            r15: g.r15 as u64,
            r14: g.r14 as u64,
            r13: g.r13 as u64,
            r12: g.r12 as u64,
            rbp: g.rbp as u64,
            rbx: g.rbx as u64,
            r11: g.r11 as u64,
            r10: g.r10 as u64,
            r9: g.r9 as u64,
            r8: g.r8 as u64,
            rax: g.rax as u64,
            rcx: g.rcx as u64,
            rdx: g.rdx as u64,
            rsi: g.rsi as u64,
            rdi: g.rdi as u64,
            rip: g.rip as u64,
            rsp: g.rsp as u64,
            eflags: g.eflags as u32,
            cs: g.cs as u16,
            ss: g.ss as u16,
        }),
{
    ThreadContext {
        r15: g.r15 as u64,
        r14: g.r14 as u64,
        r13: g.r13 as u64,
        r12: g.r12 as u64,
        rbp: g.rbp as u64,
        rbx: g.rbx as u64,
        r11: g.r11 as u64,
        r10: g.r10 as u64,
        r9: g.r9 as u64,
        r8: g.r8 as u64,
        rax: g.rax as u64,
        rcx: g.rcx as u64,
        rdx: g.rdx as u64,
        rsi: g.rsi as u64,
        rdi: g.rdi as u64,
        rip: g.rip as u64,
        rsp: g.rsp as u64,
        eflags: #[verifier::truncate] (g.eflags as u32),
        cs: #[verifier::truncate] (g.cs as u16),
        ss: #[verifier::truncate] (g.ss as u16),
    }
}

/// The registers of a thread that runs injected code: only the instruction pointer and `rax` change,
/// so that the thread keeps the stack that the loader gave it.
pub fn set_child_context(context: ThreadContext, stub: u64, rax: u64) -> (r: ThreadContext)
    ensures
        r == (ThreadContext { rip: stub, rax, ..context }),
{
    ThreadContext { rip: stub, rax, ..context }
}

/// The lower-case form of an ASCII letter; any other character itself.
pub open spec fn ascii_lower(c: char) -> char {
    if 'A' <= c <= 'Z' {
        (c as u32 + 32) as char
    } else {
        c
    }
}

/// Whether two texts are equal but for the case of ASCII letters.
pub open spec fn same_ignoring_case(a: Seq<char>, b: Seq<char>) -> bool {
    a.len() == b.len() && forall|i: int|
        0 <= i < a.len() ==> ascii_lower(#[trigger] a[i]) == ascii_lower(b[i])
}

/// Whether the character separates the parts of a path.
pub open spec fn is_separator(c: char) -> bool {
    c == '\\' || c == '/'
}

/// Where the last part of a path begins.
pub open spec fn file_start(path: Seq<char>) -> nat
    decreases path.len(),
{
    if path.len() == 0 || is_separator(path.last()) {
        path.len()
    } else {
        file_start(path.drop_last())
    }
}

/// The last part of a path.
pub open spec fn file_component(path: Seq<char>) -> Seq<char> {
    path.skip(file_start(path) as int)
}

/// The last part of a path is what follows its last separator, or all of a path without one.
pub proof fn law_file_follows_the_last_separator(dir: Seq<char>, separator: char, file: Seq<char>)
    requires
        separator == '\\' || separator == '/',
        forall|i: int| 0 <= i < file.len() ==> #[trigger] file[i] != '\\' && file[i] != '/',
    ensures
        file_component(dir.push(separator) + file) == file,
        file_component(file) == file,
{
    let path = dir.push(separator) + file;
    let k = (dir.len() + 1) as nat;
    assert(path[k - 1] == separator);
    assert forall|i: int| k <= i < path.len() implies !is_separator(#[trigger] path[i]) by {
        assert(path[i] == file[i - k]);
    }
    lemma_file_start(path, k);
    assert(path.skip(k as int) =~= file);
    assert forall|i: int| 0 <= i < file.len() implies !is_separator(#[trigger] file[i]) by {
        assert(file[i] != '\\' && file[i] != '/');
    }
    lemma_file_start(file, 0);
    assert(file.skip(0) =~= file);
}

/// File names are compared letter by letter: a capital ASCII letter counts as the small one that
/// stands 32 places after it, and every other difference counts.
pub proof fn law_names_differ_by_more_than_case(a: Seq<char>, b: Seq<char>)
    ensures
        a == b ==> same_ignoring_case(a, b),
        same_ignoring_case(a, b) <==> same_ignoring_case(b, a),
        same_ignoring_case(a, b) ==> a.len() == b.len() && forall|i: int|
            0 <= i < a.len() ==> {
                ||| #[trigger] a[i] == b[i]
                ||| 'A' <= a[i] <= 'Z' && b[i] as int == a[i] as int + 32
                ||| 'A' <= b[i] <= 'Z' && a[i] as int == b[i] as int + 32
            },
        a.len() == b.len() && (forall|i: int|
            0 <= i < a.len() ==> #[trigger] a[i] == b[i] || 'A' <= a[i] <= 'Z' && b[i] as int
                == a[i] as int + 32) ==> same_ignoring_case(a, b),
{
    if same_ignoring_case(a, b) {
        assert forall|i: int| 0 <= i < b.len() implies ascii_lower(#[trigger] b[i]) == ascii_lower(
            a[i],
        ) by {
            assert(ascii_lower(a[i]) == ascii_lower(b[i]));
        }
        assert forall|i: int| 0 <= i < a.len() implies {
            ||| #[trigger] a[i] == b[i]
            ||| 'A' <= a[i] <= 'Z' && b[i] as int == a[i] as int + 32
            ||| 'A' <= b[i] <= 'Z' && a[i] as int == b[i] as int + 32
        } by {
            assert(ascii_lower(a[i]) == ascii_lower(b[i]));
        }
    }
    if same_ignoring_case(b, a) {
        assert forall|i: int| 0 <= i < a.len() implies ascii_lower(#[trigger] a[i]) == ascii_lower(
            b[i],
        ) by {
            assert(ascii_lower(b[i]) == ascii_lower(a[i]));
        }
    }
}

proof fn lemma_file_start(path: Seq<char>, k: nat)
    requires
        k <= path.len(),
        k == 0 || is_separator(path[k - 1]),
        forall|i: int| k <= i < path.len() ==> !is_separator(#[trigger] path[i]),
    ensures
        file_start(path) == k,
    decreases path.len(),
{
    if k < path.len() {
        let front = path.drop_last();
        assert(path.last() == path[path.len() - 1]);
        assert forall|i: int| k <= i < front.len() implies !is_separator(#[trigger] front[i]) by {
            assert(front[i] == path[i]);
        }
        lemma_file_start(front, k);
    }
}

fn lower(c: char) -> (r: char)
    ensures
        r == ascii_lower(c),
{
    match c {
        'A' => 'a',
        'B' => 'b',
        'C' => 'c',
        'D' => 'd',
        'E' => 'e',
        'F' => 'f',
        'G' => 'g',
        'H' => 'h',
        'I' => 'i',
        'J' => 'j',
        'K' => 'k',
        'L' => 'l',
        'M' => 'm',
        'N' => 'n',
        'O' => 'o',
        'P' => 'p',
        'Q' => 'q',
        'R' => 'r',
        'S' => 's',
        'T' => 't',
        'U' => 'u',
        'V' => 'v',
        'W' => 'w',
        'X' => 'x',
        'Y' => 'y',
        'Z' => 'z',
        _ => c,
    }
}

/// Whether the last part of a path is the file name, but for the case of ASCII letters.
pub fn names_file(path: &str, file_name: &str) -> (r: bool)
    ensures
        r == same_ignoring_case(file_component(path@), file_name@),
{
    let p = text::chars_of(path);
    let f = text::chars_of(file_name);
    let mut k: usize = p.len();
    while k > 0 && p[k - 1] != '\\' && p[k - 1] != '/'
        invariant
            k <= p@.len(),
            p@ == path@,
            forall|i: int| k <= i < p@.len() ==> !is_separator(#[trigger] p@[i]),
        decreases k,
    {
        k = k - 1;
    }
    proof {
        lemma_file_start(p@, k as nat);
    }
    let ghost part = file_component(path@);
    assert(part =~= p@.skip(k as int));
    let len: usize = p.len();
    if len - k != f.len() {
        return false;
    }
    let mut i: usize = 0;
    while i < f.len()
        invariant
            i <= f@.len(),
            k <= len,
            p@.len() == len,
            len - k == f@.len(),
            f@ == file_name@,
            part == file_component(path@),
            part == p@.skip(k as int),
            forall|j: int| 0 <= j < i ==> ascii_lower(#[trigger] part[j]) == ascii_lower(f@[j]),
        decreases f@.len() - i,
    {
        assert(part[i as int] == p@[k + i]);
        if lower(p[k + i]) != lower(f[i]) {
            return false;
        }
        i = i + 1;
    }
    true
}

/// A region of a process's memory.
#[derive(Debug, PartialEq, Eq)]
pub struct ScannedRegion {
    pub base: usize,
    pub size: usize,
    pub allocation_base: usize,
    /// The file from which the region was mapped, if it is part of an image and the name is known.
    pub image: Option<String>,
}

/// What to do next in the search for a module.
#[derive(Debug, Clone, Copy, PartialEq, Eq, Structural)]
pub enum ScanStep {
    /// Ask for the region at this address.
    Query { addr: usize },
    /// The module was mapped here.
    Found { base: usize },
    /// There is no such module.
    NotFound,
}

/// A search for a module in a process's memory.
#[derive(Debug, Clone, Copy, PartialEq, Eq, Structural)]
pub struct ModuleScan {
    pub addr: usize,
    pub seen: u32,
}

/// Where a region ends, in wrapping arithmetic.
pub open spec fn region_end(base: usize, size: usize) -> int {
    if base + size > usize::MAX {
        base + size - usize::MAX - 1
    } else {
        base + size
    }
}

impl ModuleScan {
    /// Begins at address 0.
    pub fn new() -> (r: Self)
        ensures
            r == (ModuleScan { addr: 0, seen: 0 }),
    {
        ModuleScan { addr: 0, seen: 0 }
    }

    /// Whether `region` is part of the module.
    pub open spec fn is_module(region: ScannedRegion, file_name: Seq<char>) -> bool {
        region.image matches Some(path) && same_ignoring_case(file_component(path@), file_name)
    }

    /// Takes in the region at the current address, or that there is none.
    pub fn find_child_module_base(&mut self, region: Option<ScannedRegion>, file_name: &str) -> (r:
        ScanStep)
        requires
            old(self).seen < MAX_SCANNED_REGIONS,
        ensures
            match region {
                None => r == ScanStep::NotFound && *final(self) == *old(self),
                Some(region) => {
                    let end = region_end(region.base, region.size);
                    if Self::is_module(region, file_name@) {
                        r == (ScanStep::Found { base: region.allocation_base }) && *final(self)
                            == *old(self)
                    } else if end <= old(self).addr {
                        r == ScanStep::NotFound && *final(self) == *old(self)
                    } else {
                        &&& final(self).addr == end
                        &&& final(self).seen == old(self).seen + 1
                        &&& r == if final(self).seen < MAX_SCANNED_REGIONS {
                            ScanStep::Query { addr: final(self).addr }
                        } else {
                            ScanStep::NotFound
                        }
                    }
                },
            },
    {
        let region = match region {
            None => {
                return ScanStep::NotFound;
            },
            Some(region) => region,
        };
        match &region.image {
            Some(path) => {
                if names_file(path.as_str(), file_name) {
                    return ScanStep::Found { base: region.allocation_base };
                }
            },
            None => {},
        }
        let end: usize = region.base.wrapping_add(region.size);
        if end <= self.addr {
            return ScanStep::NotFound;
        }
        self.addr = end;
        self.seen = self.seen + 1;
        if self.seen < MAX_SCANNED_REGIONS {
            ScanStep::Query { addr: self.addr }
        } else {
            ScanStep::NotFound
        }
    }
}

/// Where a function of a module stands in the child: as far into the module as in the parent.
pub fn resolve_ntdll_proc(parent_base: usize, parent_addr: usize, child_base: usize) -> (r: usize)
    requires
        parent_base <= parent_addr,
        child_base + (parent_addr - parent_base) <= usize::MAX,
    ensures
        r - child_base == parent_addr - parent_base,
{
    child_base + (parent_addr - parent_base)
}

/// The exit code of a process that has ended: 0 if it cannot be had.
pub fn wait_for_process_exit(exit_code: Option<u32>) -> (r: u32)
    ensures
        r == match exit_code {
            Some(code) => code,
            None => 0,
        },
{
    match exit_code {
        Some(code) => code,
        None => 0,
    }
}

/// The exit code of a process, or `None` if it still runs. `wait` is what a wait of no length
/// returned: 0 if the process has ended.
pub fn try_wait_for_process_exit(wait: u32, exit_code: Option<u32>) -> (r: Option<u32>)
    ensures
        r == if wait != 0 || exit_code == Some(STILL_ACTIVE) {
            None
        } else if exit_code is None {
            Some(0u32)
        } else {
            exit_code
        },
{
    if wait != 0 {
        return None;
    }
    match exit_code {
        None => Some(0),
        Some(code) => if code == STILL_ACTIVE {
            None
        } else {
            Some(code)
        },
    }
}

/// The exit code of a probe child: the value of its variable, or 0.
pub fn run_wait4_probe_child(value: Option<&str>) -> (r: u32)
    ensures
        r == match value {
            Some(v) => match numbers::unsigned_value(v@, 10, u32::MAX as nat) {
                Some(code) => code as u32,
                None => 0,
            },
            None => 0,
        },
{
    match value {
        Some(v) => match numbers::parse_unsigned(v, 10, u32::MAX as u64) {
            Some(code) => code as u32,
            None => 0,
        },
        None => 0,
    }
}

/// What the exit code of a probe child says.
#[derive(Debug, Clone, Copy, PartialEq, Eq, Structural)]
pub struct ProbeExit {
    /// The code was made by the encoding.
    pub marker_ok: bool,
    /// The child was ended by a signal.
    pub signaled: bool,
    /// The exit status or the signal.
    pub low: u32,
    /// The child exited as it was told to.
    pub expected: bool,
}

/// The parts of an encoded exit code, as numbers: the upper half is the mark, bit 15 tells a signal
/// from an exit, and the lowest byte is the status.
pub open spec fn probe_exit(code: u32) -> ProbeExit {
    let marker_ok = code / 0x1_0000 == 0xC0DE;
    let signaled = (code / 0x8000) % 2 == 1;
    let low = code % 0x100;
    ProbeExit { marker_ok, signaled, low, expected: marker_ok && !signaled && low == 42 }
}

/// An exit code under the mark tells a normal end from a signal, and gives back the status or the
/// signal; a code without the mark was not made by the encoding. Only a normal end with status 42 is
/// what the probe expects.
pub proof fn law_exit_codes_are_decoded(status: u32, code: u32)
    requires
        status < 0x100,
    ensures
        probe_exit((0xC0DE_0000 + status) as u32).marker_ok,
        !probe_exit((0xC0DE_0000 + status) as u32).signaled,
        probe_exit((0xC0DE_0000 + status) as u32).low == status,
        probe_exit((0xC0DE_8000 + status) as u32).marker_ok,
        probe_exit((0xC0DE_8000 + status) as u32).signaled,
        probe_exit((0xC0DE_8000 + status) as u32).low == status,
        probe_exit((0xC0DE_0000 + status) as u32).expected <==> status == 42,
        !probe_exit((0xC0DE_8000 + status) as u32).expected,
        probe_exit(code).marker_ok <==> 0xC0DE_0000 <= code <= 0xC0DE_FFFF,
        probe_exit(code).expected <==> probe_exit(code).marker_ok && !probe_exit(code).signaled
            && probe_exit(code).low == 42,
        probe_exit(code).signaled <==> code % 0x1_0000 >= 0x8000,
        probe_exit(code).low < 0x100,
        (code - probe_exit(code).low) % 0x100 == 0,
{
}

/// Decodes the exit code of a probe child.
pub fn diagnostic_cross_process_wait4_probe(code: u32) -> (r: ProbeExit)
    ensures
        r == probe_exit(code),
{
    proof {
        assert(code & 0xFFFF_0000 == 0xC0DE_0000 <==> code / 0x1_0000 == 0xC0DE) by (bit_vector);
        assert(code & 0x8000 != 0 <==> (code / 0x8000) % 2 == 1) by (bit_vector);
        assert(code & 0xff == code % 0x100) by (bit_vector);
    }
    let marker_ok: bool = code & 0xFFFF_0000 == 0xC0DE_0000;
    let low: u32 = code & 0xff;
    let signaled: bool = code & 0x8000 != 0;
    ProbeExit { marker_ok, signaled, low, expected: marker_ok && !signaled && low == 42 }
}

/// A child that shows its marker is ready, with what it wrote before; one whose output ends without
/// it is not, and a deadline or a failed read is told as such.
pub proof fn law_verdicts_follow_the_output(
    watch: &OutputWatch,
    end: WatchEnd,
    marker: &[u8],
    r: ResumeVerdict,
    task: TaskVerdict,
)
    requires
        call_ensures(resume_and_observe, (watch, end, marker), r),
        call_ensures(task_resume_and_observe, (watch, end, marker), task),
    ensures
        r is TimedOut <==> end == WatchEnd::Deadline,
        r is Ready ==> bytes::occurs(watch.collected@, marker@),
        r is NotReady ==> !bytes::occurs(watch.collected@, marker@),
        end == WatchEnd::Step(WatchStep::Found) && bytes::occurs(watch.collected@, marker@) ==> r
            is Ready,
        task.saw_return <==> bytes::occurs(watch.collected@, marker@),
        task.closed <==> end == WatchEnd::Step(WatchStep::Closed),
{
}

/// The debugger that was attached to a child is detached again, whether or not the child could be
/// resumed, and a child that could not be resumed is not waited for.
pub proof fn law_debuggers_are_detached(
    run: &mut Injection,
    count: u32,
    later: &mut Injection,
)
    requires
        old(run).phase == InjectPhase::Resume,
        old(run).attached,
        call_ensures(Injection::on_resumed, (run, count), ()),
        old(later).phase == InjectPhase::Detach,
        old(later).resume_failed == final(run).resume_failed,
        call_ensures(Injection::on_detached, (later,), ()),
    ensures
        count == u32::MAX ==> final(run).phase == InjectPhase::Detach && final(later).phase
            == InjectPhase::Done,
        count != u32::MAX ==> final(run).phase == InjectPhase::Observe && final(later).phase
            == InjectPhase::Await,
        !final(later).attached,
{
}

/// The breakpoint that attaching brings about is passed over once, and every other exception of the
/// child is reported; other processes are left alone.
pub proof fn law_attaching_is_passed_over_once(
    observer: &mut FaultObserver,
    pid: u32,
    exception: Option<(u32, bool)>,
    r: DebugStep,
    later: &mut FaultObserver,
    again: DebugStep,
)
    requires
        call_ensures(FaultObserver::observe_real_resume_fault, (observer, pid, exception), r),
        *old(later) == *final(observer),
        call_ensures(FaultObserver::observe_real_resume_fault, (later, pid, exception), again),
    ensures
        pid != old(observer).child_pid ==> r == DebugStep::Continue && again == DebugStep::Continue,
        pid == old(observer).child_pid && exception is Some ==> again == DebugStep::Report,
        pid == old(observer).child_pid && exception is Some && r == DebugStep::Continue ==> exception
            == Some((0x8000_0003u32, true)),
        exception is None ==> r == DebugStep::Continue,
{
}

/// The search for a module finds it by its file name, wherever it is mapped from, and otherwise goes
/// on right behind the region, never back.
pub proof fn law_modules_are_found_by_name(
    scan: &mut ModuleScan,
    region: ScannedRegion,
    dir: Seq<char>,
    file: Seq<char>,
    file_name: &str,
    r: ScanStep,
)
    requires
        old(scan).seen < MAX_SCANNED_REGIONS,
        call_ensures(ModuleScan::find_child_module_base, (scan, Some(region), file_name), r),
        forall|i: int| 0 <= i < file.len() ==> #[trigger] file[i] != '\\' && file[i] != '/',
    ensures
        region.image is Some && region.image->0@ == dir.push('\\') + file && same_ignoring_case(
            file,
            file_name@,
        ) ==> r == (ScanStep::Found { base: region.allocation_base }),
        region.image is Some && region.image->0@ == dir.push('\\') + file && !same_ignoring_case(
            file,
            file_name@,
        ) ==> !(r is Found),
        region.image is None ==> !(r is Found),
        r matches ScanStep::Query { addr } ==> addr > old(scan).addr,
{
    law_file_follows_the_last_separator(dir, '\\', file);
}

/// A function stands as far into its module in the child as in the parent.
pub proof fn law_functions_keep_their_offset(
    parent_base: usize,
    parent_addr: usize,
    child_base: usize,
    r: usize,
)
    requires
        parent_base <= parent_addr,
        child_base + (parent_addr - parent_base) <= usize::MAX,
        call_ensures(resolve_ntdll_proc, (parent_base, parent_addr, child_base), r),
    ensures
        r - child_base == parent_addr - parent_base,
        parent_base == child_base ==> r == parent_addr,
{
}

/// A process that still runs has no exit code, and one that has ended has its own, or 0 if that
/// cannot be had.
pub proof fn law_running_processes_have_no_code(wait: u32, code: Option<u32>, r: Option<u32>)
    requires
        call_ensures(try_wait_for_process_exit, (wait, code), r),
    ensures
        wait != 0 ==> r is None,
        code == Some(259u32) ==> r is None,
        wait == 0 && code is None ==> r == Some(0u32),
        wait == 0 && code is Some && code != Some(259u32) ==> r == code,
{
}

/// A child is given the guest's registers only step by step: once it has started and shown its marker
/// it is suspended, then its registers are set, and any failure before that ends the attempt.
pub proof fn law_registers_are_set_after_the_marker(
    run: &mut Injection,
    count: u32,
    later: &mut Injection,
    data: Vec<u8>,
    marker: &[u8],
    then: &mut Injection,
    suspended: u32,
)
    requires
        old(run).phase == InjectPhase::Start,
        old(run).has_stdout,
        call_ensures(Injection::on_started, (run, count), ()),
        old(later).phase == InjectPhase::AwaitReady,
        old(later).wf(marker@),
        data@.len() > 0,
        call_ensures(Injection::on_output, (later, PipeEvent::Data(data), marker), ()),
        old(then).phase == InjectPhase::Suspend,
        call_ensures(Injection::on_suspended, (then, suspended), ()),
    ensures
        final(run).phase == InjectPhase::AwaitReady <==> count != u32::MAX,
        final(later).phase == InjectPhase::Suspend <==> bytes::occurs(
            old(later).watch.collected@ + data@,
            marker@,
        ),
        final(then).phase == InjectPhase::SetContext <==> suspended != u32::MAX,
        final(then).phase == InjectPhase::Done <==> suspended == u32::MAX,
{
}

/// A thread that resumes from a snapshot has the snapshot's registers, and one that runs injected code
/// keeps all of its own but the instruction pointer and the result register.
pub proof fn law_contexts_carry_the_registers(
    g: &ForkFullGprSnapshot,
    full: ThreadContext,
    stub: u64,
    rax: u64,
    injected: ThreadContext,
)
    requires
        call_ensures(set_child_full_context, (g,), full),
        call_ensures(set_child_context, (full, stub, rax), injected),
    ensures
        full.rip == g.rip && full.rsp == g.rsp && full.rax == g.rax && full.rbp == g.rbp,
        full.rcx == g.rcx && full.rdx == g.rdx && full.rsi == g.rsi && full.rdi == g.rdi,
        full.rbx == g.rbx && full.r8 == g.r8 && full.r9 == g.r9 && full.r10 == g.r10,
        full.r11 == g.r11 && full.r12 == g.r12 && full.r13 == g.r13 && full.r14 == g.r14,
        full.r15 == g.r15,
        g.eflags <= u32::MAX ==> full.eflags == g.eflags,
        g.cs <= u16::MAX ==> full.cs == g.cs,
        g.ss <= u16::MAX ==> full.ss == g.ss,
        injected.rip == stub && injected.rax == rax,
        injected.rsp == full.rsp && injected.rbp == full.rbp && injected.rdi == full.rdi,
        injected.rcx == full.rcx && injected.rbx == full.rbx && injected.eflags == full.eflags,
{
}

/// The injected code has succeeded only if both its marks were seen: the word it writes, whenever it
/// was looked at, and its exit code.
pub proof fn law_injected_code_leaves_its_marks(
    observer: &mut MarkerObserver,
    word: Option<u32>,
    later: &mut MarkerObserver,
    other: Option<u32>,
    code: Option<u32>,
    r: bool,
)
    requires
        call_ensures(MarkerObserver::on_marker, (observer, word), ()),
        *old(later) == *final(observer),
        call_ensures(MarkerObserver::on_marker, (later, other), ()),
        call_ensures(injection_succeeded, (final(later).saw_marker, code), r),
    ensures
        word == Some(0x1187_1187u32) ==> final(later).saw_marker,
        r ==> code == Some(0x1187_2118u32),
        r && !old(observer).saw_marker ==> word == Some(0x1187_1187u32) || other == Some(
            0x1187_1187u32,
        ),
        word == Some(0x1187_1187u32) && code == Some(0x1187_2118u32) ==> r,
{
}

/// The steps of an attempt follow each other: the registers are set once the code is there, a
/// debugger is tried then, the child is resumed with it or without, watched only with it, and waited
/// for; what it still writes is read only if it runs the guest. What fails before the child is
/// resumed ends the attempt.
pub proof fn law_attempts_go_step_by_step(
    stub: &mut Injection,
    wrote: bool,
    context: &mut Injection,
    set: bool,
    attach: &mut Injection,
    attached: bool,
    observe: &mut Injection,
    wait: &mut Injection,
    deadline: &mut Injection,
)
    requires
        old(stub).phase == InjectPhase::WriteStub,
        !old(stub).real,
        call_ensures(Injection::on_stub, (stub, wrote), ()),
        old(context).phase == InjectPhase::SetContext,
        call_ensures(Injection::on_context, (context, set), ()),
        old(attach).phase == InjectPhase::Attach,
        call_ensures(Injection::on_attached, (attach, attached), ()),
        old(observe).phase == InjectPhase::Observe,
        call_ensures(Injection::on_observed, (observe,), ()),
        old(wait).phase == InjectPhase::Await,
        call_ensures(Injection::on_waited, (wait,), ()),
        old(deadline).phase == InjectPhase::AwaitReady,
        call_ensures(Injection::on_deadline, (deadline,), ()),
    ensures
        wrote <==> final(stub).phase is SetContext,
        !wrote <==> final(stub).phase is Done,
        set <==> final(context).phase is Attach,
        !set <==> final(context).phase is Done,
        final(attach).phase is Resume && final(attach).attached == attached,
        final(observe).phase is Detach,
        old(wait).real <==> final(wait).phase is Drain,
        !old(wait).real <==> final(wait).phase is Done,
        final(deadline).phase is Done,
{
}

/// All of what a child still wrote is kept, in its order, until its output ends.
pub proof fn law_late_output_is_kept(
    run: &mut Injection,
    a: Vec<u8>,
    later: &mut Injection,
    b: Vec<u8>,
    last: &mut Injection,
)
    requires
        old(run).phase == InjectPhase::Drain,
        a@.len() > 0,
        b@.len() > 0,
        call_ensures(Injection::on_drained, (run, Some(PipeEvent::Data(a))), ()),
        *old(later) == *final(run),
        call_ensures(Injection::on_drained, (later, Some(PipeEvent::Data(b))), ()),
        *old(last) == *final(later),
        call_ensures(Injection::on_drained, (last, None::<PipeEvent>), ()),
    ensures
        final(later).phase is Drain,
        final(last).phase is Done,
        final(last).rest@ == old(run).rest@ + a@ + b@,
{
}

/// The code counts as put into the child only when every byte of it was, and a probe child ends with
/// the code that it was given.
pub proof fn law_whole_code_is_put(
    ok: bool,
    written: usize,
    len: usize,
    r: bool,
    n: u32,
    v: &str,
    code: u32,
    ended: u32,
)
    requires
        call_ensures(stub_written, (ok, written, len), r),
        v@ == numbers::digits(n as nat, 10),
        call_ensures(run_wait4_probe_child, (Some(v),), code),
        call_ensures(wait_for_process_exit, (Some(n),), ended),
    ensures
        r <==> ok && written == len,
        code == n,
        ended == n,
{
    numbers::lemma_unsigned_roundtrip(n as nat, 10, u32::MAX as nat);
}

/// A scan that has not found the module goes on right behind the region that it looked at, so that no
/// region is left out, and ends only when there is no further one or enough were looked at.
pub proof fn law_scans_leave_no_region_out(
    scan: &mut ModuleScan,
    region: ScannedRegion,
    file_name: &str,
    r: ScanStep,
)
    requires
        old(scan).seen + 1 < MAX_SCANNED_REGIONS,
        call_ensures(ModuleScan::find_child_module_base, (scan, Some(region), file_name), r),
        region.base <= old(scan).addr < region.base + region.size <= usize::MAX,
    ensures
        !(r is Found) ==> r == (ScanStep::Query { addr: (region.base + region.size) as usize }),
        !(r is Found) ==> final(scan).addr == region.base + region.size && final(scan).seen == old(scan).seen + 1,
        r matches ScanStep::Found { base } ==> base == region.allocation_base,
{
}

} // verus!
