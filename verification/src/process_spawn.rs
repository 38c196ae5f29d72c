//! Starting a suspended child process: the pipes it is given, which of the diagnostic probes run,
//! and what its output says.

use crate::bytes;
use crate::numbers;
use crate::process_fork::GroupCopyResult;
use crate::text;
use core::ops::Range;
use vstd::prelude::*;

verus! {

/// Set for every child that is started to become a forked process.
pub const REEXEC_CHILD_ENV_VAR: &'static str = "LITEBOX_INTERNAL_FORK_CHILD";

/// Set for a child that is to park until the parent gives it the guest's registers.
pub const REAL_RESUME_CHILD_ENV_VAR: &'static str = "LITEBOX_INTERNAL_FORK_CHILD_REAL_RESUME";

/// Carries the parent's memory layout to the child.
pub const FORK_CHILD_VMA_LAYOUT_ENV_VAR: &'static str = "LITEBOX_INTERNAL_FORK_CHILD_VMA_LAYOUT";

/// Carries the registers with which the child resumes.
pub const FORK_CHILD_GPRS_ENV_VAR: &'static str = "LITEBOX_INTERNAL_FORK_CHILD_GPRS";

/// Carries the path of the root file system archive.
pub const FORK_CHILD_TAR_PATH_ENV_VAR: &'static str = "LITEBOX_INTERNAL_FORK_CHILD_TAR_PATH";

/// What a child prints once it has started up.
pub const RESUME_CHILD_READY_MARKER: &'static str = "LITEBOX_DIAG_RESUME_CHILD_READY";

/// What a child writes through a handle that was duplicated into it.
pub const RESUME_CHILD_FD_MARKER: &'static str = "LITEBOX_DIAG_RESUME_CHILD_FD_OK";

/// What a child prints when its guest thread has ended.
pub const RUN_THREAD_RETURNED: &'static str = "run_thread returned";

/// The error of a read from a pipe whose other end is closed.
pub const ERROR_BROKEN_PIPE: u32 = 109;

/// The handles of a child that is being started; 0 is no handle.
#[derive(Debug, Clone, Copy, PartialEq, Eq, Structural)]
pub struct SuspendedSpawn {
    pub want_stdout: bool,
    pub want_stdin: bool,
    pub stdout_read: usize,
    pub stdout_write: usize,
    pub stdin_read: usize,
    pub stdin_write: usize,
}

/// A child that was started.
#[derive(Debug, Clone, Copy, PartialEq, Eq, Structural)]
pub struct SpawnedChild {
    pub process: usize,
    pub thread: usize,
    pub pid: u32,
    /// The parent's end of the child's output, if it was asked for.
    pub stdout_read: Option<usize>,
    /// The parent's end of the child's input, if it was asked for.
    pub stdin_write: Option<usize>,
}

/// The handle, if there is one.
pub open spec fn optional_handle(h: Option<usize>) -> Seq<usize> {
    match h {
        Some(h) => seq![h],
        None => Seq::empty(),
    }
}

impl SpawnedChild {
    /// The handles that the parent holds, in the order in which it closes them when it has ended the
    /// child: its pipe ends, the thread, the process.
    pub fn handles(&self) -> (r: Vec<usize>)
        ensures
            r@ == optional_handle(self.stdout_read) + optional_handle(self.stdin_write) + seq![
                self.thread,
                self.process,
            ],
    {
        let mut r: Vec<usize> = Vec::new();
        if let Some(h) = self.stdout_read {
            r.push(h);
        }
        if let Some(h) = self.stdin_write {
            r.push(h);
        }
        r.push(self.thread);
        r.push(self.process);
        r
    }
}

/// What to do next to start a child.
#[derive(Debug, PartialEq, Eq)]
pub enum SpawnStep {
    /// Create the output pipe and continue with [`SuspendedSpawn::on_stdout_pipe`].
    CreateStdoutPipe,
    /// Create the input pipe and continue with [`SuspendedSpawn::on_stdin_pipe`].
    CreateStdinPipe,
    /// Create the process and continue with [`SuspendedSpawn::on_process`]. The child inherits
    /// handles, and uses the pipe ends as its own, if `use_std_handles`.
    CreateProcess { use_std_handles: bool },
    /// Close the handles; the start has failed.
    Failed { close: Vec<usize>, message: String },
}

/// What a start came to: the handles the parent closes, and the child or an error.
#[derive(Debug, PartialEq, Eq)]
pub struct SpawnOutcome {
    pub close: Vec<usize>,
    pub result: Result<SpawnedChild, String>,
}

/// The handle as a list, empty for no handle.
pub open spec fn handle_list(h: usize) -> Seq<usize> {
    if h == 0 {
        Seq::empty()
    } else {
        seq![h]
    }
}

impl SuspendedSpawn {
    /// The handles the parent closes after the attempt to create the process: its copies of the
    /// child's ends in any case, and its own ends if there is no child.
    pub open spec fn closes(self, created: bool) -> Seq<usize> {
        let child_ends = (if self.want_stdout {
            handle_list(self.stdout_write)
        } else {
            Seq::empty()
        }) + (if self.want_stdin {
            handle_list(self.stdin_read)
        } else {
            Seq::empty()
        });
        if created {
            child_ends
        } else {
            child_ends + handle_list(self.stdout_read) + handle_list(self.stdin_write)
        }
    }
}

/// The message of a failed system call.
pub open spec fn failure_text(what: Seq<char>, error: u32) -> Seq<char> {
    what + " failed: GetLastError="@ + numbers::digits(error as nat, 10)
}

/// The message of a failed system call.
pub fn failure_message(what: &str, error: u32) -> (r: String)
    ensures
        r@ == failure_text(what@, error),
{
    let mut out = what.to_owned();
    out.append(" failed: GetLastError=");
    numbers::push_digits(&mut out, error as u64, 10);
    out
}

fn push_handle(out: &mut Vec<usize>, h: usize)
    ensures
        final(out)@ == old(out)@ + handle_list(h),
{
    let ghost before = out@;
    if h != 0 {
        out.push(h);
    }
    assert(out@ =~= before + handle_list(h));
}

impl SuspendedSpawn {
    /// Begins to start a child. An input pipe is only created beside an output pipe.
    pub fn spawn_suspended(want_stdout: bool, want_stdin: bool) -> (r: (Self, SpawnStep))
        ensures
            r.0 == (SuspendedSpawn {
                want_stdout,
                want_stdin,
                stdout_read: 0,
                stdout_write: 0,
                stdin_read: 0,
                stdin_write: 0,
            }),
            r.1 == if want_stdout {
                SpawnStep::CreateStdoutPipe
            } else {
                SpawnStep::CreateProcess { use_std_handles: false }
            },
    {
        let spawn = SuspendedSpawn {
            want_stdout,
            want_stdin,
            stdout_read: 0,
            stdout_write: 0,
            stdin_read: 0,
            stdin_write: 0,
        };
        if want_stdout {
            (spawn, SpawnStep::CreateStdoutPipe)
        } else {
            (spawn, SpawnStep::CreateProcess { use_std_handles: false })
        }
    }

    /// Goes on after the output pipe was created, as its read end and its write end, or not.
    pub fn on_stdout_pipe(&mut self, pipe: Option<(usize, usize)>, error: u32) -> (r: SpawnStep)
        ensures
            match pipe {
                None => *final(self) == *old(self) && (r matches SpawnStep::Failed { close, message }
                    && close@ == Seq::<usize>::empty() && message@ == failure_text(
                    "CreatePipe"@,
                    error,
                )),
                Some((read, write)) => *final(self) == (SuspendedSpawn {
                    stdout_read: read,
                    stdout_write: write,
                    ..*old(self)
                }) && r == if old(self).want_stdin {
                    SpawnStep::CreateStdinPipe
                } else {
                    SpawnStep::CreateProcess { use_std_handles: true }
                },
            },
    {
        match pipe {
            None => SpawnStep::Failed {
                close: Vec::new(),
                message: failure_message("CreatePipe", error),
            },
            Some((read, write)) => {
                self.stdout_read = read;
                self.stdout_write = write;
                if self.want_stdin {
                    SpawnStep::CreateStdinPipe
                } else {
                    SpawnStep::CreateProcess { use_std_handles: true }
                }
            },
        }
    }

    /// Goes on after the input pipe was created, as its read end and its write end, or not.
    pub fn on_stdin_pipe(&mut self, pipe: Option<(usize, usize)>, error: u32) -> (r: SpawnStep)
        ensures
            match pipe {
                None => *final(self) == *old(self) && (r matches SpawnStep::Failed { close, message }
                    && close@ == seq![old(self).stdout_read, old(self).stdout_write] && message@
                    == failure_text("CreatePipe (stdin)"@, error)),
                Some((read, write)) => *final(self) == (SuspendedSpawn {
                    stdin_read: read,
                    stdin_write: write,
                    ..*old(self)
                }) && r == (SpawnStep::CreateProcess { use_std_handles: true }),
            },
    {
        match pipe {
            None => {
                let mut close: Vec<usize> = Vec::new();
                close.push(self.stdout_read);
                close.push(self.stdout_write);
                assert(close@ =~= seq![self.stdout_read, self.stdout_write]);
                SpawnStep::Failed { close, message: failure_message("CreatePipe (stdin)", error) }
            },
            Some((read, write)) => {
                self.stdin_read = read;
                self.stdin_write = write;
                SpawnStep::CreateProcess { use_std_handles: true }
            },
        }
    }

    /// Ends the start with the process, thread and process number, or the error.
    pub fn on_process(&self, created: Option<(usize, usize, u32)>, error: u32) -> (r: SpawnOutcome)
        ensures
            r.close@ == self.closes(created is Some),
            match created {
                Some((process, thread, pid)) => r.result == Ok::<SpawnedChild, String>(
                    SpawnedChild {
                        process,
                        thread,
                        pid,
                        stdout_read: if self.want_stdout {
                            Some(self.stdout_read)
                        } else {
                            None
                        },
                        stdin_write: if self.want_stdin {
                            Some(self.stdin_write)
                        } else {
                            None
                        },
                    },
                ),
                None => r.result matches Err(message) && message@ == failure_text(
                    "CreateProcessW(CREATE_SUSPENDED)"@,
                    error,
                ),
            },
    {
        let mut close: Vec<usize> = Vec::new();
        if self.want_stdout {
            push_handle(&mut close, self.stdout_write);
        }
        if self.want_stdin {
            push_handle(&mut close, self.stdin_read);
        }
        assert(close@ =~= self.closes(true));
        match created {
            None => {
                push_handle(&mut close, self.stdout_read);
                push_handle(&mut close, self.stdin_write);
                SpawnOutcome {
                    close,
                    result: Err(failure_message("CreateProcessW(CREATE_SUSPENDED)", error)),
                }
            },
            Some((process, thread, pid)) => {
                let stdout_read: Option<usize> = if self.want_stdout {
                    Some(self.stdout_read)
                } else {
                    None
                };
                let stdin_write: Option<usize> = if self.want_stdin {
                    Some(self.stdin_write)
                } else {
                    None
                };
                SpawnOutcome {
                    close,
                    result: Ok(SpawnedChild { process, thread, pid, stdout_read, stdin_write }),
                }
            },
        }
    }
}

/// Whether `h` is one of the pipe ends that were created.
pub open spec fn is_pipe_end(s: SuspendedSpawn, h: usize) -> bool {
    h != 0 && (h == s.stdout_read || h == s.stdout_write || h == s.stdin_read || h
        == s.stdin_write)
}

/// Whether the pipe ends are those of pipes that were asked for, and are all different.
pub open spec fn has_distinct_ends(s: SuspendedSpawn) -> bool {
    &&& !s.want_stdout ==> s.stdout_read == 0 && s.stdout_write == 0
    &&& !s.want_stdin ==> s.stdin_read == 0 && s.stdin_write == 0
    &&& s.stdout_read != 0 ==> s.stdout_read != s.stdout_write && s.stdout_read != s.stdin_read
        && s.stdout_read != s.stdin_write
    &&& s.stdout_write != 0 ==> s.stdout_write != s.stdin_read && s.stdout_write != s.stdin_write
    &&& s.stdin_read != 0 ==> s.stdin_read != s.stdin_write
}

/// No pipe end is lost: after the attempt to create the process every end is either closed or, if
/// there is a child, kept as one of the two that the parent uses, and never both.
pub proof fn law_no_handle_is_lost(s: SuspendedSpawn, h: usize, created: bool)
    requires
        has_distinct_ends(s),
        is_pipe_end(s, h),
    ensures
        s.closes(created).contains(h) <==> !(created && (h == s.stdout_read || h == s.stdin_write)),
{
    let closes = s.closes(created);
    let child_ends = s.closes(true);
    if s.want_stdout && s.stdout_write != 0 {
        assert(child_ends[0] == s.stdout_write);
        assert(closes[0] == s.stdout_write);
    }
    if s.want_stdin && s.stdin_read != 0 {
        let at = if s.want_stdout && s.stdout_write != 0 {
            1int
        } else {
            0int
        };
        assert(child_ends[at] == s.stdin_read);
        assert(closes[at] == s.stdin_read);
    }
    if !created {
        let n = child_ends.len() as int;
        if s.stdout_read != 0 {
            assert(closes[n] == s.stdout_read);
        }
        if s.stdin_write != 0 {
            let at = if s.stdout_read != 0 {
                n + 1
            } else {
                n
            };
            assert(closes[at] == s.stdin_write);
        }
    }
}

/// Which diagnostic probes are switched on.
#[derive(Debug, Clone, Copy, PartialEq, Eq, Structural)]
pub struct DiagGates {
    pub resume: bool,
    pub fds: bool,
    pub real_resume: bool,
    pub relocations: bool,
    pub vmem_adopt: bool,
    pub globalstate: bool,
    pub task_resume: bool,
}

/// How the parent watches the resumed child.
#[derive(Debug, Clone, Copy, PartialEq, Eq, Structural)]
pub enum Observer {
    /// The child is not resumed.
    Nobody,
    /// The child starts a guest thread of its own; wait for its end.
    TaskResume,
    /// The child parks and is given the guest's registers.
    RealResume,
    /// The child is given a stub to run.
    Inject,
    /// The child runs its own start-up.
    Resume,
}

/// What a diagnostic fork does.
#[derive(Debug, Clone, Copy, PartialEq, Eq, Structural)]
pub struct DiagPlan {
    /// Give the child an output pipe.
    pub stdout_pipe: bool,
    /// Give the child an input pipe.
    pub stdin_pipe: bool,
    /// Mark the child as one that parks.
    pub mark_real_resume: bool,
    /// Put the memory layout into the child's environment.
    pub send_layout: bool,
    /// Put the registers into the child's environment.
    pub send_gprs: bool,
    /// Duplicate the output handle into the child.
    pub duplicate_stdio: bool,
    /// Write the memory layout to the child's input.
    pub write_layout: bool,
    pub observer: Observer,
}

/// The plan for a diagnostic fork, given whether the stub's registers, all registers, and the memory
/// layout were handed in.
pub open spec fn diag_plan(
    gates: DiagGates,
    has_gprs: bool,
    has_full_gprs: bool,
    has_layout: bool,
) -> DiagPlan {
    let fds = gates.resume && gates.fds;
    let real_resume = gates.resume && gates.real_resume && has_full_gprs;
    let relocations = real_resume && gates.relocations && has_layout;
    let vmem_adopt = gates.vmem_adopt && gates.globalstate && has_layout;
    let task_resume = gates.task_resume && vmem_adopt && has_full_gprs;
    DiagPlan {
        stdout_pipe: gates.resume,
        stdin_pipe: fds || relocations,
        mark_real_resume: real_resume && !task_resume,
        send_layout: vmem_adopt,
        send_gprs: task_resume,
        duplicate_stdio: fds,
        write_layout: relocations,
        observer: if !gates.resume {
            Observer::Nobody
        } else if task_resume {
            Observer::TaskResume
        } else if real_resume {
            Observer::RealResume
        } else if has_gprs {
            Observer::Inject
        } else {
            Observer::Resume
        },
    }
}

/// Plans a diagnostic fork.
pub fn diagnostic_spawn_and_copy(
    gates: DiagGates,
    has_gprs: bool,
    has_full_gprs: bool,
    has_layout: bool,
) -> (r: DiagPlan)
    ensures
        r == diag_plan(gates, has_gprs, has_full_gprs, has_layout),
{
    let want_fds: bool = gates.resume && gates.fds;
    let want_real_resume: bool = gates.resume && gates.real_resume && has_full_gprs;
    let want_relocations: bool = want_real_resume && gates.relocations && has_layout;
    let want_vmem_adopt: bool = gates.vmem_adopt && gates.globalstate && has_layout;
    let want_task_resume: bool = gates.task_resume && want_vmem_adopt && has_full_gprs;
    let observer = if !gates.resume {
        Observer::Nobody
    } else if want_task_resume {
        Observer::TaskResume
    } else if want_real_resume {
        Observer::RealResume
    } else if has_gprs {
        Observer::Inject
    } else {
        Observer::Resume
    };
    DiagPlan {
        stdout_pipe: gates.resume,
        stdin_pipe: want_fds || want_relocations,
        mark_real_resume: want_real_resume && !want_task_resume,
        send_layout: want_vmem_adopt,
        send_gprs: want_task_resume,
        duplicate_stdio: want_fds,
        write_layout: want_relocations,
        observer,
    }
}

/// What to do next for a diagnostic fork, once its child is started.
#[derive(Debug, Clone, Copy, PartialEq, Eq, Structural)]
pub enum DiagStep {
    /// Copy this group into the child and continue with [`DiagFork::on_group`].
    CopyGroup { index: usize },
    /// Give the child copies of the parent's handles and continue with [`DiagFork::on_done`].
    DuplicateStdio,
    /// Write the layout to the child's input and continue with [`DiagFork::on_done`].
    WriteLayout,
    /// Let this observer run the child and continue with [`DiagFork::on_done`].
    Observe { observer: Observer },
    /// End the child, close its handles, and take the results with [`DiagFork::finish`].
    TearDown,
}

/// What follows the copies: the parts of the plan in this order, and then the end of the child.
pub open spec fn diag_tail(plan: DiagPlan) -> Seq<DiagStep> {
    let stdio = if plan.duplicate_stdio {
        seq![DiagStep::DuplicateStdio]
    } else {
        Seq::empty()
    };
    let layout = if plan.write_layout {
        seq![DiagStep::WriteLayout]
    } else {
        Seq::empty()
    };
    let observe = if plan.observer != Observer::Nobody {
        seq![DiagStep::Observe { observer: plan.observer }]
    } else {
        Seq::empty()
    };
    stdio + layout + observe + seq![DiagStep::TearDown]
}

/// The step after `copied` groups were tried and `done` steps that follow them.
pub open spec fn diag_next(plan: DiagPlan, groups: nat, copied: nat, done: nat) -> DiagStep {
    if copied < groups {
        DiagStep::CopyGroup { index: copied as usize }
    } else {
        diag_tail(plan)[done as int]
    }
}

/// A diagnostic fork whose child is started: what became of each group so far, and what follows.
#[derive(Debug, PartialEq, Eq)]
pub struct DiagFork {
    groups: Vec<Range<usize>>,
    results: Vec<GroupCopyResult>,
    plan: DiagPlan,
    tail: Vec<DiagStep>,
    done: usize,
}

impl DiagFork {
    pub closed spec fn group_list(self) -> Seq<Range<usize>> {
        self.groups@
    }

    /// What became of the groups that were tried.
    pub closed spec fn outcomes(self) -> Seq<GroupCopyResult> {
        self.results@
    }

    pub closed spec fn planned(self) -> DiagPlan {
        self.plan
    }

    /// The number of steps done after the copies.
    pub closed spec fn steps_done(self) -> nat {
        self.done as nat
    }

    /// What is next.
    pub open spec fn next(self) -> DiagStep {
        diag_next(
            self.planned(),
            self.group_list().len(),
            self.outcomes().len(),
            self.steps_done(),
        )
    }

    #[verifier::type_invariant]
    spec fn well_formed(self) -> bool {
        &&& self.results@.len() <= self.groups@.len()
        &&& forall|i: int|
            0 <= i < self.results@.len() ==> (#[trigger] self.results@[i]).source_group
                == self.groups@[i]
        &&& self.tail@ == diag_tail(self.plan)
        &&& self.done < self.tail@.len()
    }

    /// A fork of which no group has been copied yet.
    pub fn new(plan: DiagPlan, groups: Vec<Range<usize>>) -> (r: Self)
        ensures
            r.planned() == plan,
            r.group_list() == groups@,
            r.outcomes() == Seq::<GroupCopyResult>::empty(),
            r.steps_done() == 0,
    {
        let mut tail: Vec<DiagStep> = Vec::new();
        if plan.duplicate_stdio {
            tail.push(DiagStep::DuplicateStdio);
        }
        if plan.write_layout {
            tail.push(DiagStep::WriteLayout);
        }
        if plan.observer != Observer::Nobody {
            tail.push(DiagStep::Observe { observer: plan.observer });
        }
        tail.push(DiagStep::TearDown);
        assert(tail@ =~= diag_tail(plan));
        DiagFork { groups, results: Vec::new(), plan, tail, done: 0 }
    }

    /// What is next.
    pub fn step(&self) -> (r: DiagStep)
        ensures
            r == self.next(),
    {
        proof {
            use_type_invariant(self);
        }
        if self.results.len() < self.groups.len() {
            DiagStep::CopyGroup { index: self.results.len() }
        } else {
            self.tail[self.done]
        }
    }

    /// Takes in what became of the group that was to be copied. A failure is recorded like a
    /// success, and the next group follows.
    pub fn on_group(&mut self, succeeded: bool, last_error: u32) -> (r: DiagStep)
        requires
            old(self).next() is CopyGroup,
        ensures
            final(self).planned() == old(self).planned(),
            final(self).group_list() == old(self).group_list(),
            final(self).steps_done() == old(self).steps_done(),
            final(self).outcomes() == old(self).outcomes().push(
                (GroupCopyResult {
                    source_group: old(self).group_list()[old(self).outcomes().len() as int],
                    succeeded,
                    last_error,
                }),
            ),
            r == final(self).next(),
    {
        proof {
            use_type_invariant(&*self);
            lemma_tail_copies_nothing(self.plan, self.done as int);
        }
        let at: usize = self.results.len();
        let source_group = self.groups[at].start..self.groups[at].end;
        let mut results: Vec<GroupCopyResult> = Vec::new();
        std::mem::swap(&mut results, &mut self.results);
        results.push(GroupCopyResult { source_group, succeeded, last_error });
        self.results = results;
        self.step()
    }

    /// Takes note that a step after the copies is done.
    pub fn on_done(&mut self) -> (r: DiagStep)
        requires
            !(old(self).next() is CopyGroup),
            old(self).next() != DiagStep::TearDown,
        ensures
            final(self).planned() == old(self).planned(),
            final(self).group_list() == old(self).group_list(),
            final(self).outcomes() == old(self).outcomes(),
            final(self).steps_done() == old(self).steps_done() + 1,
            r == final(self).next(),
    {
        proof {
            use_type_invariant(&*self);
            assert(self.tail@.last() == DiagStep::TearDown);
        }
        self.done = self.done + 1;
        self.step()
    }

    /// The results, once the child is to be ended: one for each group, in their order.
    pub fn finish(self) -> (r: Vec<GroupCopyResult>)
        requires
            self.next() == DiagStep::TearDown,
        ensures
            r@ == self.outcomes(),
            r@.len() == self.group_list().len(),
            forall|i: int|
                0 <= i < r@.len() ==> (#[trigger] r@[i]).source_group == self.group_list()[i],
    {
        proof {
            use_type_invariant(&self);
        }
        self.results
    }
}

proof fn lemma_tail_copies_nothing(plan: DiagPlan, i: int)
    requires
        0 <= i < diag_tail(plan).len(),
    ensures
        !(diag_tail(plan)[i] is CopyGroup),
{
}

/// Every group is tried, whatever became of those before it; nothing else is done before, and the
/// last thing that is done is to end the child.
pub proof fn law_every_group_is_tried(plan: DiagPlan, groups: usize, copied: nat, done: nat)
    requires
        copied <= groups,
        done < diag_tail(plan).len(),
    ensures
        copied < groups ==> diag_next(plan, groups as nat, copied, done) == (
        DiagStep::CopyGroup { index: copied as usize }),
        diag_next(plan, groups as nat, copied, done) is CopyGroup <==> copied < groups,
        diag_next(plan, groups as nat, groups as nat, done) == DiagStep::TearDown <==> done
            == diag_tail(plan).len() - 1,
{
    lemma_tail_copies_nothing(plan, done as int);
}

/// Each part of a diagnostic fork follows its own switches, and is only done with what it needs:
/// handles are duplicated for a resumed child, the layout is written for one that parks and is given
/// all registers, and is sent with the registers to one that runs a guest thread of its own; the
/// child has pipes exactly if they are used.
pub proof fn law_probes_follow_their_switches(
    gates: DiagGates,
    has_gprs: bool,
    has_full_gprs: bool,
    has_layout: bool,
)
    ensures
        ({
            let plan = diag_plan(gates, has_gprs, has_full_gprs, has_layout);
            &&& plan.stdout_pipe <==> gates.resume
            &&& plan.duplicate_stdio <==> gates.resume && gates.fds
            &&& plan.write_layout <==> gates.resume && gates.real_resume && gates.relocations
                && has_full_gprs && has_layout
            &&& plan.stdin_pipe <==> plan.duplicate_stdio || plan.write_layout
            &&& plan.send_layout <==> gates.vmem_adopt && gates.globalstate && has_layout
            &&& plan.send_gprs <==> plan.send_layout && gates.task_resume && has_full_gprs
            &&& plan.mark_real_resume <==> gates.resume && gates.real_resume && has_full_gprs
                && !plan.send_gprs
            &&& plan.observer == Observer::Nobody <==> !gates.resume
            &&& plan.observer == Observer::TaskResume <==> gates.resume && plan.send_gprs
            &&& plan.observer == Observer::RealResume <==> plan.mark_real_resume
            &&& plan.observer == Observer::Inject <==> gates.resume && has_gprs && !plan.send_gprs
                && !plan.mark_real_resume
            &&& plan.observer == Observer::Resume <==> gates.resume && !has_gprs && !plan.send_gprs
                && !plan.mark_real_resume
        }),
{
}

/// The steps after the copies stand in the plan, each at most once and in their order, and whoever
/// observes the child does so after everything else was given to it.
pub proof fn law_child_is_prepared_before_it_runs(plan: DiagPlan, i: int, j: int)
    requires
        0 <= i < diag_tail(plan).len(),
        0 <= j < diag_tail(plan).len(),
    ensures
        plan.duplicate_stdio <==> diag_tail(plan).contains(DiagStep::DuplicateStdio),
        plan.write_layout <==> diag_tail(plan).contains(DiagStep::WriteLayout),
        diag_tail(plan)[i] is Observe ==> plan.observer != Observer::Nobody && diag_tail(plan)[i] == (
        DiagStep::Observe { observer: plan.observer }) && i == diag_tail(plan).len() - 2,
        plan.observer != Observer::Nobody ==> diag_tail(plan).len() >= 2 && diag_tail(plan)[diag_tail(
            plan,
        ).len() - 2] is Observe,
        diag_tail(plan)[i] == DiagStep::DuplicateStdio && diag_tail(plan)[j]
            == DiagStep::WriteLayout ==> i < j,
        diag_tail(plan)[i] == diag_tail(plan)[j] ==> i == j,
{
    let tail = diag_tail(plan);
    if plan.duplicate_stdio {
        assert(tail[0] == DiagStep::DuplicateStdio);
    }
    if plan.write_layout {
        assert(tail[if plan.duplicate_stdio {
            1int
        } else {
            0int
        }] == DiagStep::WriteLayout);
    }
}

/// The ways to resume exclude each other: a child that starts a guest thread of its own does not
/// park, and one that parks is only ever given all registers.
pub proof fn law_resume_probes_exclude_each_other(
    gates: DiagGates,
    has_gprs: bool,
    has_full_gprs: bool,
    has_layout: bool,
)
    ensures
        ({
            let plan = diag_plan(gates, has_gprs, has_full_gprs, has_layout);
            &&& !(plan.mark_real_resume && plan.send_gprs)
            &&& plan.observer == Observer::RealResume ==> plan.mark_real_resume && has_full_gprs
            &&& plan.observer == Observer::TaskResume ==> plan.send_gprs && plan.send_layout
            &&& plan.stdin_pipe ==> plan.stdout_pipe
            &&& plan.observer == Observer::Nobody <==> !plan.stdout_pipe
        }),
{
}

/// The steps of a fork into a separate process, after the child was started suspended.
#[derive(Debug, Clone, Copy, PartialEq, Eq, Structural)]
pub enum ForkStep {
    /// Copy this group and continue with [`ForkSpawn::on_group`].
    CopyGroup { index: usize },
    /// Resume the child and continue with [`ForkSpawn::on_resumed`].
    Resume,
    /// The child runs: close the thread handle and keep the process handle.
    Running,
    /// The fork has failed: terminate the child and close both handles.
    TearDown,
}

/// The progress of a fork into a separate process.
#[derive(Debug, Clone, Copy, PartialEq, Eq, Structural)]
pub struct ForkSpawn {
    pub groups: usize,
    pub copied: usize,
}

impl ForkSpawn {
    /// What comes next: the first group that is not copied, or resuming the child.
    pub open spec fn next(self) -> ForkStep {
        if self.copied < self.groups {
            ForkStep::CopyGroup { index: self.copied }
        } else {
            ForkStep::Resume
        }
    }

    /// Begins with `groups` groups to copy.
    pub fn spawn_process_fork_child(groups: usize) -> (r: (Self, ForkStep))
        ensures
            r.0 == (ForkSpawn { groups, copied: 0 }),
            r.1 == r.0.next(),
    {
        let fork = ForkSpawn { groups, copied: 0 };
        let step = fork.step();
        (fork, step)
    }

    fn step(&self) -> (r: ForkStep)
        ensures
            r == self.next(),
    {
        if self.copied < self.groups {
            ForkStep::CopyGroup { index: self.copied }
        } else {
            ForkStep::Resume
        }
    }

    /// Goes on after a group was copied or failed. One failure ends the fork.
    pub fn on_group(&mut self, succeeded: bool) -> (r: ForkStep)
        requires
            old(self).copied < old(self).groups,
        ensures
            final(self).groups == old(self).groups,
            final(self).copied == if succeeded {
                (old(self).copied + 1) as usize
            } else {
                old(self).copied
            },
            r == if succeeded {
                final(self).next()
            } else {
                ForkStep::TearDown
            },
    {
        if !succeeded {
            return ForkStep::TearDown;
        }
        self.copied = self.copied + 1;
        self.step()
    }

    /// Goes on after the child was resumed, `count` being what the system returned: the largest
    /// number says that it failed.
    pub fn on_resumed(&self, count: u32) -> (r: ForkStep)
        ensures
            r == if count == u32::MAX {
                ForkStep::TearDown
            } else {
                ForkStep::Running
            },
    {
        if count == u32::MAX {
            ForkStep::TearDown
        } else {
            ForkStep::Running
        }
    }
}

/// The step after `n` groups were copied successfully in a row.
pub open spec fn after_groups(groups: usize, n: int) -> ForkStep {
    (ForkSpawn { groups, copied: n as usize }).next()
}

/// The child is resumed exactly when every group has been copied, and never before.
pub proof fn law_resume_only_after_all_groups(groups: usize, n: int)
    requires
        0 <= n <= groups,
    ensures
        after_groups(groups, n) == ForkStep::Resume <==> n == groups,
        n < groups ==> after_groups(groups, n) == (ForkStep::CopyGroup { index: n as usize }),
{
}

/// What came of a read from the child's output.
#[derive(Debug, PartialEq, Eq)]
pub enum PipeEvent {
    /// These bytes; none at the end of the output.
    Data(Vec<u8>),
    /// The read failed.
    Failed(u32),
}

/// What an event on the child's output means.
#[derive(Debug, Clone, Copy, PartialEq, Eq, Structural)]
pub enum WatchStep {
    /// Read on.
    More,
    /// The marker has been seen.
    Found,
    /// The output has ended.
    Closed,
    /// The read failed.
    Broken { error: u32 },
}

/// Whether `part` is what stands in `output` before the first marker, or all of it without one.
pub open spec fn is_before_first(output: Seq<u8>, marker: Seq<u8>, part: Seq<u8>) -> bool {
    if bytes::occurs(output, marker) {
        exists|i: int|
            #![trigger output.take(i)]
            bytes::occurs_at(output, marker, i) && part == output.take(i) && forall|j: int|
                0 <= j < i ==> !bytes::occurs_at(output, marker, j)
    } else {
        part == output
    }
}

/// The child's output so far.
#[derive(Debug, PartialEq, Eq)]
pub struct OutputWatch {
    pub collected: Vec<u8>,
}

impl OutputWatch {
    /// No output yet.
    pub fn new() -> (r: Self)
        ensures
            r.collected@ == Seq::<u8>::empty(),
    {
        OutputWatch { collected: Vec::new() }
    }

    /// Takes in one event. The marker counts as seen wherever it stands in the whole output, also
    /// across reads.
    pub fn on_read(&mut self, event: PipeEvent, marker: &[u8]) -> (r: WatchStep)
        ensures
            match event {
                PipeEvent::Data(data) => {
                    &&& final(self).collected@ == old(self).collected@ + data@
                    &&& r == if data@.len() == 0 {
                        WatchStep::Closed
                    } else if bytes::occurs(final(self).collected@, marker@) {
                        WatchStep::Found
                    } else {
                        WatchStep::More
                    }
                },
                PipeEvent::Failed(error) => {
                    &&& final(self).collected@ == old(self).collected@
                    &&& r == if error == ERROR_BROKEN_PIPE {
                        WatchStep::Closed
                    } else {
                        WatchStep::Broken { error }
                    }
                },
            },
    {
        match event {
            PipeEvent::Failed(error) => if error == ERROR_BROKEN_PIPE {
                WatchStep::Closed
            } else {
                WatchStep::Broken { error }
            },
            PipeEvent::Data(data) => {
                bytes::push_all(&mut self.collected, data.as_slice());
                if data.len() == 0 {
                    assert(self.collected@ =~= old(self).collected@ + data@);
                    return WatchStep::Closed;
                }
                if self.saw(marker) {
                    WatchStep::Found
                } else {
                    WatchStep::More
                }
            },
        }
    }

    /// Whether the marker stands in the output.
    pub fn saw(&self, marker: &[u8]) -> (r: bool)
        ensures
            r == bytes::occurs(self.collected@, marker@),
    {
        match bytes::find(self.collected.as_slice(), marker) {
            Some(i) => {
                assert(bytes::occurs_at(self.collected@, marker@, i as int));
                true
            },
            None => false,
        }
    }

    /// The output before the first marker, or all of it without one.
    pub fn before_marker(&self, marker: &[u8]) -> (r: Vec<u8>)
        ensures
            is_before_first(self.collected@, marker@, r@),
    {
        match bytes::find(self.collected.as_slice(), marker) {
            Some(i) => {
                let r = bytes::copy_range(self.collected.as_slice(), 0, i);
                proof {
                    assert(bytes::occurs_at(self.collected@, marker@, i as int));
                    assert(r@ =~= self.collected@.take(i as int));
                }
                r
            },
            None => {
                let r = bytes::copy_range(self.collected.as_slice(), 0, self.collected.len());
                assert(r@ =~= self.collected@);
                r
            },
        }
    }
}

/// What to do about a child's input that may hold a line.
#[derive(Debug, Clone, Copy, PartialEq, Eq, Structural)]
pub enum PeekStep {
    /// There is no pipe to read.
    Gone,
    /// Nothing has arrived.
    Wait,
    /// Read up to `max` bytes.
    Read { max: usize },
}

/// Decides about one look at the child's input: `available` bytes wait, unless the look failed.
pub fn on_peek(ok: bool, available: u32, capacity: usize) -> (r: PeekStep)
    ensures
        r == if !ok {
            PeekStep::Gone
        } else if available == 0 {
            PeekStep::Wait
        } else {
            PeekStep::Read {
                max: if capacity <= available {
                    capacity
                } else {
                    available as usize
                },
            }
        },
{
    if !ok {
        PeekStep::Gone
    } else if available == 0 {
        PeekStep::Wait
    } else if capacity as u64 <= available as u64 {
        PeekStep::Read { max: capacity }
    } else {
        PeekStep::Read { max: available as usize }
    }
}

/// The bytes of a line that is arriving on the child's input.
#[derive(Debug, PartialEq, Eq)]
pub struct InputLine {
    pub collected: Vec<u8>,
}

impl InputLine {
    /// Nothing has arrived.
    pub fn new() -> (r: Self)
        ensures
            r.collected@ == Seq::<u8>::empty(),
    {
        InputLine { collected: Vec::new() }
    }

    /// Takes in bytes. Returns whether a line end has arrived.
    pub fn on_data(&mut self, data: &[u8]) -> (r: bool)
        ensures
            final(self).collected@ == old(self).collected@ + data@,
            r == final(self).collected@.contains(10u8),
    {
        bytes::push_all(&mut self.collected, data);
        match bytes::find_byte(self.collected.as_slice(), 10, 0) {
            Some(i) => {
                assert(self.collected@[i as int] == 10u8);
                true
            },
            None => false,
        }
    }

    /// The text that has arrived, without white space around it.
    pub fn text(&self) -> (r: String)
        ensures
            r@ == text::trimmed(text::utf8_lossy(self.collected@)),
    {
        let line = text::lossy_text(self.collected.as_slice());
        text::trim(line.as_str())
    }
}

/// The handle value that a line carries.
pub fn handle_value(line: &str) -> (r: Option<isize>)
    ensures
        match r {
            Some(v) => numbers::signed_value(line@, isize::MIN as int, isize::MAX as int) == Some(
                v as int,
            ),
            None => numbers::signed_value(line@, isize::MIN as int, isize::MAX as int) is None,
        },
{
    match numbers::parse_signed(line, isize::MIN as i64, isize::MAX as i64) {
        Some(v) => Some(v as isize),
        None => None,
    }
}

/// The line that carries a handle value.
pub fn handle_line(value: isize) -> (r: String)
    ensures
        r@ == numbers::decimal(value as int).push('\n'),
{
    let mut out = String::new();
    numbers::push_decimal(&mut out, value as i64);
    out.push('\n');
    assert(out@ =~= numbers::decimal(value as int).push('\n'));
    out
}

/// A handle value written as a line, without its line end, is read back.
pub proof fn law_handle_value_roundtrip(value: isize)
    ensures
        numbers::signed_value(
            numbers::decimal(value as int),
            isize::MIN as int,
            isize::MAX as int,
        ) == Some(value as int),
        text::trimmed(numbers::decimal(value as int).push('\n')) == numbers::decimal(value as int),
{
    numbers::lemma_signed_roundtrip(value as int, isize::MIN as int, isize::MAX as int);
    numbers::lemma_decimal_word(value as int);
    let d = numbers::decimal(value as int);
    let s = d.push('\n');
    assert(s[0] == d[0]);
    assert(text::blank_len(s) == 0);
    assert(s.skip(0) =~= s);
    assert(s.drop_last() =~= d);
    assert(!text::is_space(d[d.len() - 1]));
    reveal_with_fuel(text::trimmed_end, 2);
}

/// The memory layout that the child's input carries, if any text has arrived.
pub fn relocations_line(line: String) -> (r: Option<String>)
    ensures
        match r {
            Some(l) => line@.len() > 0 && l@ == line@,
            None => line@.len() == 0,
        },
{
    if line.as_str().is_empty() {
        None
    } else {
        Some(line)
    }
}

/// The line that carries the memory layout.
pub fn layout_payload(line: &str) -> (r: String)
    ensures
        r@ == line@.push('\n'),
{
    let mut out = line.to_owned();
    out.push('\n');
    out
}

/// What a write of `len` bytes came to.
#[derive(Debug, Clone, Copy, PartialEq, Eq, Structural)]
pub enum WriteOutcome {
    Failed,
    Short,
    Complete,
}

/// Judges a write of `len` bytes of which `written` were written.
pub fn write_outcome(ok: bool, written: u32, len: usize) -> (r: WriteOutcome)
    ensures
        r == if !ok {
            WriteOutcome::Failed
        } else if written != len {
            WriteOutcome::Short
        } else {
            WriteOutcome::Complete
        },
{
    if !ok {
        WriteOutcome::Failed
    } else if written as u64 != len as u64 {
        WriteOutcome::Short
    } else {
        WriteOutcome::Complete
    }
}

/// The bytes that a child writes through the handle duplicated into it: the marker and a line end.
pub fn alloc_marker_bytes() -> (r: Vec<u8>)
    ensures
        r@ == vstd::utf8::encode_utf8(RESUME_CHILD_FD_MARKER@).push(10),
{
    let mut out: Vec<u8> = Vec::new();
    bytes::push_all(&mut out, RESUME_CHILD_FD_MARKER.as_bytes());
    out.push(10);
    assert(out@ =~= vstd::utf8::encode_utf8(RESUME_CHILD_FD_MARKER@).push(10));
    out
}

/// What a started diagnostic child does before it returns.
#[derive(Debug, Clone, Copy, PartialEq, Eq, Structural)]
pub struct ResumeChildPlan {
    /// Give the thread the state that the exception handler expects.
    pub install_tls: bool,
    /// Read the memory layout and begin verification with it.
    pub read_layout: bool,
    /// Park until the parent sets the registers.
    pub park: bool,
}

/// Plans a diagnostic child: only one that is marked to park does any of it.
pub fn run_diagnostic_resume_child(real_resume: bool, tls: bool, relocations: bool) -> (r:
    ResumeChildPlan)
    ensures
        r == (ResumeChildPlan {
            install_tls: real_resume && tls,
            read_layout: real_resume && tls && relocations,
            park: real_resume,
        }),
{
    ResumeChildPlan {
        install_tls: real_resume && tls,
        read_layout: real_resume && tls && relocations,
        park: real_resume,
    }
}

/// A fork is given up at the first group that fails, and otherwise goes on with the next one until
/// all are copied; only then the child is resumed, and it is given up if that fails.
pub proof fn law_forks_fail_whole(
    fork: &mut ForkSpawn,
    succeeded: bool,
    r: ForkStep,
    count: u32,
    resumed: ForkStep,
)
    requires
        old(fork).copied < old(fork).groups,
        call_ensures(ForkSpawn::on_group, (fork, succeeded), r),
        call_ensures(ForkSpawn::on_resumed, (&*final(fork), count), resumed),
    ensures
        !succeeded <==> r == ForkStep::TearDown,
        succeeded && old(fork).copied + 1 < old(fork).groups ==> r == (ForkStep::CopyGroup {
            index: (old(fork).copied + 1) as usize,
        }),
        succeeded && old(fork).copied + 1 == old(fork).groups ==> r == ForkStep::Resume,
        resumed == ForkStep::TearDown <==> count == 0xFFFF_FFFF,
        resumed == ForkStep::Running <==> count != 0xFFFF_FFFF,
{
}

/// The marker is seen wherever it stands in the child's output, also across two reads, and what comes
/// before it is what the child wrote first.
pub proof fn law_markers_are_seen_across_reads(
    watch: &mut OutputWatch,
    a: Vec<u8>,
    first: WatchStep,
    later: &mut OutputWatch,
    b: Vec<u8>,
    second: WatchStep,
    marker: &[u8],
)
    requires
        old(watch).collected@.len() == 0,
        a@.len() > 0,
        b@.len() > 0,
        call_ensures(OutputWatch::on_read, (watch, PipeEvent::Data(a), marker), first),
        *old(later) == *final(watch),
        call_ensures(OutputWatch::on_read, (later, PipeEvent::Data(b), marker), second),
    ensures
        final(later).collected@ == a@ + b@,
        second == WatchStep::Found <==> bytes::occurs(a@ + b@, marker@),
        second == WatchStep::More <==> !bytes::occurs(a@ + b@, marker@),
        first == WatchStep::Found ==> second == WatchStep::Found,
{
    assert(old(watch).collected@ + a@ =~= a@);
    if bytes::occurs(a@, marker@) {
        let i = choose|i: int| bytes::occurs_at(a@, marker@, i);
        assert((a@ + b@).subrange(i, i + marker@.len()) =~= a@.subrange(i, i + marker@.len()));
        assert(bytes::occurs_at(a@ + b@, marker@, i));
    }
}

/// The value of a handle that the parent writes as a line is what the child reads from it.
pub proof fn law_handle_lines_are_read(
    value: isize,
    line: String,
    trimmed_line: &str,
    r: Option<isize>,
)
    requires
        call_ensures(handle_line, (value,), line),
        trimmed_line@ == text::trimmed(line@),
        call_ensures(handle_value, (trimmed_line,), r),
    ensures
        r == Some(value),
{
    law_handle_value_roundtrip(value);
}

/// A child that was started is reached by the pipe ends that the parent keeps, exactly those that were
/// asked for, and the parent closes no end that it keeps.
pub proof fn law_started_children_keep_their_pipes(
    spawn: &SuspendedSpawn,
    process: usize,
    thread: usize,
    pid: u32,
    error: u32,
    r: SpawnOutcome,
)
    requires
        has_distinct_ends(*spawn),
        spawn.want_stdout ==> spawn.stdout_read != 0,
        spawn.want_stdin ==> spawn.stdin_write != 0,
        call_ensures(SuspendedSpawn::on_process, (spawn, Some((process, thread, pid)), error), r),
    ensures
        r.result matches Ok(child) && child.process == process && child.thread == thread && child.pid
            == pid && (child.stdout_read is Some <==> spawn.want_stdout) && (child.stdin_write
            is Some <==> spawn.want_stdin) && (child.stdout_read matches Some(h) ==> h
            == spawn.stdout_read && !r.close@.contains(h)) && (child.stdin_write matches Some(h)
            ==> h == spawn.stdin_write && !r.close@.contains(h)),
{
    if spawn.want_stdout {
        law_no_handle_is_lost(*spawn, spawn.stdout_read, true);
    }
    if spawn.want_stdin {
        law_no_handle_is_lost(*spawn, spawn.stdin_write, true);
    }
}

/// A line of the child's input has arrived when its end has, in however many parts it came, and is
/// read without the white space around it.
pub proof fn law_input_lines_arrive_in_parts(
    line: &mut InputLine,
    a: &[u8],
    first: bool,
    later: &mut InputLine,
    b: &[u8],
    second: bool,
)
    requires
        old(line).collected@.len() == 0,
        call_ensures(InputLine::on_data, (line, a), first),
        *old(later) == *final(line),
        call_ensures(InputLine::on_data, (later, b), second),
    ensures
        final(later).collected@ == a@ + b@,
        first <==> a@.contains(10u8),
        second <==> a@.contains(10u8) || b@.contains(10u8),
{
    assert(old(line).collected@ + a@ =~= a@);
    let both = a@ + b@;
    if a@.contains(10u8) {
        let k = choose|k: int| 0 <= k < a@.len() && a@[k] == 10u8;
        assert(both[k] == 10u8);
    }
    if b@.contains(10u8) {
        let k = choose|k: int| 0 <= k < b@.len() && b@[k] == 10u8;
        assert(both[a@.len() + k] == 10u8);
    }
    if both.contains(10u8) {
        let k = choose|k: int| 0 <= k < both.len() && both[k] == 10u8;
        if k < a@.len() {
            assert(a@[k] == 10u8);
        } else {
            assert(b@[k - a@.len()] == 10u8);
        }
    }
}

/// No more is read than has arrived, nor than there is room for, and nothing is read from a pipe that
/// is gone or empty.
pub proof fn law_reads_take_what_is_there(ok: bool, available: u32, capacity: usize, r: PeekStep)
    requires
        call_ensures(on_peek, (ok, available, capacity), r),
    ensures
        r == PeekStep::Gone <==> !ok,
        r == PeekStep::Wait <==> ok && available == 0,
        r matches PeekStep::Read { max } ==> max <= available && max <= capacity && (max == available
            || max == capacity),
{
}

/// A write counts as complete only if every byte was written.
pub proof fn law_short_writes_are_told(ok: bool, written: u32, len: usize, r: WriteOutcome)
    requires
        call_ensures(write_outcome, (ok, written, len), r),
    ensures
        r == WriteOutcome::Complete <==> ok && written == len,
        r == WriteOutcome::Failed <==> !ok,
{
}

/// A child that is started with pipes is given each one that was asked for before it is created, and
/// a pipe that cannot be had ends the start with everything closed that was made.
pub proof fn law_pipes_come_before_the_child(
    want_stdin: bool,
    begun: (SuspendedSpawn, SpawnStep),
    spawn: &mut SuspendedSpawn,
    read: usize,
    write: usize,
    error: u32,
    second: SpawnStep,
    later: &mut SuspendedSpawn,
    third: SpawnStep,
)
    requires
        call_ensures(SuspendedSpawn::spawn_suspended, (true, want_stdin), begun),
        *old(spawn) == begun.0,
        call_ensures(SuspendedSpawn::on_stdout_pipe, (spawn, Some((read, write)), error), second),
        *old(later) == *final(spawn),
        call_ensures(
            SuspendedSpawn::on_stdin_pipe,
            (later, None::<(usize, usize)>, error),
            third,
        ),
    ensures
        begun.1 == SpawnStep::CreateStdoutPipe,
        want_stdin <==> second == SpawnStep::CreateStdinPipe,
        !want_stdin ==> second == (SpawnStep::CreateProcess { use_std_handles: true }),
        third matches SpawnStep::Failed { close, message } && close@.contains(read)
            && close@.contains(write) && close@.len() == 2,
{
    let close = third->close;
    assert(close@[0] == read);
    assert(close@[1] == write);
}

/// Every handle that the parent holds on a child is among those that it closes, the process last and
/// its pipe ends first, and nothing else is.
pub proof fn law_all_handles_are_closed(child: &SpawnedChild, r: Vec<usize>, h: usize)
    requires
        call_ensures(SpawnedChild::handles, (child,), r),
    ensures
        r@.contains(h) <==> h == child.process || h == child.thread || child.stdout_read == Some(h)
            || child.stdin_write == Some(h),
        r@.len() >= 2,
        r@.last() == child.process,
        r@[r@.len() - 2] == child.thread,
        child.stdout_read is Some ==> r@[0] == child.stdout_read->0,
{
    let a = optional_handle(child.stdout_read);
    let b = optional_handle(child.stdin_write);
    assert(r@.last() == child.process && r@[r@.len() - 2] == child.thread);
    if child.stdout_read == Some(h) {
        assert(r@[0] == h);
    }
    if child.stdin_write == Some(h) {
        assert(r@[a.len() as int] == h);
    }
}

/// What stands before the marker is all of the output up to its first occurrence: nothing of the
/// marker, and nothing that comes before it is missing.
pub proof fn law_output_before_the_marker_is_kept(
    watch: &OutputWatch,
    marker: &[u8],
    r: Vec<u8>,
    i: int,
)
    requires
        call_ensures(OutputWatch::before_marker, (watch, marker), r),
    ensures
        bytes::occurs_at(watch.collected@, marker@, i) ==> r@.len() <= i,
        r@.len() <= watch.collected@.len(),
        r@ == watch.collected@.take(r@.len() as int),
        !bytes::occurs(watch.collected@, marker@) ==> r@ == watch.collected@,
        bytes::occurs(watch.collected@, marker@) ==> bytes::occurs_at(
            watch.collected@,
            marker@,
            r@.len() as int,
        ),
{
    let all = watch.collected@;
    if bytes::occurs(all, marker@) {
        let k = choose|k: int|
            #![trigger all.take(k)]
            bytes::occurs_at(all, marker@, k) && r@ == all.take(k) && forall|j: int|
                0 <= j < k ==> !bytes::occurs_at(all, marker@, j);
        assert(r@.len() == k);
    } else {
        assert(all.take(all.len() as int) =~= all);
        if bytes::occurs_at(all, marker@, i) {
            assert(bytes::occurs(all, marker@));
        }
    }
}

/// What became of a group is recorded for that group, a failure like a success, and then the next
/// group is copied, until all were tried.
pub proof fn law_every_outcome_is_recorded(
    fork: &mut DiagFork,
    succeeded: bool,
    error: u32,
    r: DiagStep,
)
    requires
        old(fork).next() is CopyGroup,
        call_ensures(DiagFork::on_group, (fork, succeeded, error), r),
    ensures
        final(fork).outcomes().len() == old(fork).outcomes().len() + 1,
        final(fork).outcomes().last().succeeded == succeeded,
        final(fork).outcomes().last().last_error == error,
        final(fork).outcomes().last().source_group == old(fork).group_list()[old(fork).outcomes().len() as int],
        final(fork).outcomes().drop_last() == old(fork).outcomes(),
        final(fork).outcomes().len() < final(fork).group_list().len() ==> (r
            matches DiagStep::CopyGroup { index } && (final(fork).outcomes().len() <= usize::MAX
            ==> index == final(fork).outcomes().len())),
{
}

/// A diagnostic child parks only if it is told to, reads the layout only into a thread that is
/// prepared for it, and does nothing of this otherwise.
pub proof fn law_only_parked_children_prepare(
    real_resume: bool,
    tls: bool,
    relocations: bool,
    r: ResumeChildPlan,
)
    requires
        call_ensures(run_diagnostic_resume_child, (real_resume, tls, relocations), r),
    ensures
        r.park <==> real_resume,
        r.install_tls <==> r.park && tls,
        r.read_layout <==> r.install_tls && relocations,
{
}

} // verus!
