//! A lock that is shared between processes: one word in shared memory, and a kernel event on which
//! those sleep that find the lock taken.
//!
//! A waiter writes [`CONTENDED`] before it sleeps, and finds out in the same step whether the lock
//! was free. A release writes [`FREE`], and finds out in the same step whether it has to signal. The
//! second half of this file states what follows from that for any number of threads.

use crate::numbers;
use core::sync::atomic::{AtomicU32, Ordering};
use vstd::prelude::*;

verus! {

/// The lock is not held.
pub const FREE: u32 = 0;

/// The lock is held, and nobody is known to sleep.
pub const LOCKED: u32 = 1;

/// The lock is held, and somebody may sleep: a release has to signal.
pub const CONTENDED: u32 = 2;

/// How often the lock is tried before sleeping.
pub const SPIN_LIMIT: u32 = 200;

/// A wait that ended because the event was signaled.
pub const WAIT_OBJECT_0: u32 = 0;

/// A wait that ended because its time was up.
pub const WAIT_TIMEOUT: u32 = 258;

/// A wait that failed.
pub const WAIT_FAILED: u32 = 0xFFFF_FFFF;

/// The error of a wait whose time was up.
pub const ERROR_TIMEOUT: u32 = 1460;

/// `core::hint::spin_loop` tells the processor that this is a busy wait. It returns nothing and
/// changes nothing.
pub assume_specification[ core::hint::spin_loop ]()
;

/// What a thread does next to get the lock.
#[derive(Debug, Clone, Copy, PartialEq, Eq, Structural)]
pub enum LockStep {
    /// The lock is held by this thread.
    Acquired,
    /// Wait for the event, then try again.
    Sleep,
}

/// What a thread does after it has freed the lock.
#[derive(Debug, Clone, Copy, PartialEq, Eq, Structural)]
pub enum UnlockStep {
    /// Nobody has to be woken.
    Released,
    /// Signal the event.
    Signal,
    /// The lock was not held, which is a mistake of the caller.
    NotHeld,
    /// The word held none of the three states.
    Corrupted { word: u32 },
}

/// An attempt to take the lock: the word afterwards, and whether it was taken.
pub open spec fn try_lock_word(word: u32) -> (u32, bool) {
    if word == FREE {
        (LOCKED, true)
    } else {
        (word, false)
    }
}

/// An attempt to take the lock or else to sleep: the word afterwards, and what comes next.
pub open spec fn contend_word(word: u32) -> (u32, LockStep) {
    (
        CONTENDED,
        if word == FREE {
            LockStep::Acquired
        } else {
            LockStep::Sleep
        },
    )
}

/// A release: the word afterwards, and what comes next.
pub open spec fn unlock_word(word: u32) -> (u32, UnlockStep) {
    (
        FREE,
        if word == CONTENDED {
            UnlockStep::Signal
        } else if word == LOCKED {
            UnlockStep::Released
        } else if word == FREE {
            UnlockStep::NotHeld
        } else {
            UnlockStep::Corrupted { word }
        },
    )
}

/// A free lock is had by whoever tries it, at once or when about to sleep, and a held one by nobody;
/// trying changes nothing about a held lock, and announcing a sleeper is seen by the release.
pub proof fn law_free_lock_is_had(word: u32)
    ensures
        try_lock_word(word).1 <==> word == 0,
        try_lock_word(word).1 ==> try_lock_word(word).0 != 0,
        !try_lock_word(word).1 ==> try_lock_word(word).0 == word,
        contend_word(word).1 == LockStep::Acquired <==> word == 0,
        unlock_word(contend_word(word).0).1 == UnlockStep::Signal,
        unlock_word(try_lock_word(0).0).1 == UnlockStep::Released,
        unlock_word(word).0 == 0,
        try_lock_word(unlock_word(word).0).1,
{
}

/// A release tells a word that is no state of a held lock: a free one, or one of none of the states.
pub proof fn law_bad_releases_are_told(word: u32)
    ensures
        unlock_word(word).1 == UnlockStep::NotHeld <==> word == 0,
        unlock_word(word).1 == UnlockStep::Released <==> word == 1,
        unlock_word(word).1 == UnlockStep::Signal <==> word == 2,
        word > 2 ==> unlock_word(word).1 == (UnlockStep::Corrupted { word }),
{
}

/// Judges the exchange of [`FREE`] for [`LOCKED`]: it is done if the word was free.
pub fn on_exchanged(previous: Result<u32, u32>) -> (r: bool)
    ensures
        r == (previous is Ok),
        previous == Ok::<u32, u32>(FREE) ==> r == try_lock_word(FREE).1,
        previous matches Err(word) ==> (word != FREE ==> r == try_lock_word(word).1),
{
    previous.is_ok()
}

/// Judges the word that was replaced by [`CONTENDED`].
pub fn on_contended(previous: u32) -> (r: LockStep)
    ensures
        r == contend_word(previous).1,
{
    if previous == FREE {
        LockStep::Acquired
    } else {
        LockStep::Sleep
    }
}

/// Judges the word that was replaced by [`FREE`].
pub fn on_released(previous: u32) -> (r: UnlockStep)
    ensures
        r == unlock_word(previous).1,
{
    if previous == CONTENDED {
        UnlockStep::Signal
    } else if previous == LOCKED {
        UnlockStep::Released
    } else if previous == FREE {
        UnlockStep::NotHeld
    } else {
        UnlockStep::Corrupted { word: previous }
    }
}

/// Whether a guard may be dropped whose word was replaced by [`FREE`]: not if somebody may sleep,
/// who would not be woken.
pub fn may_drop_silently(previous: u32) -> (r: bool)
    ensures
        r == (unlock_word(previous).1 != UnlockStep::Signal),
{
    previous != CONTENDED
}

/// Whether `word` is what `AtomicU32::new` makes of [`FREE`].
pub open spec fn starts_free(word: AtomicU32) -> bool {
    call_ensures(AtomicU32::new, (FREE,), word)
}

/// Whether `outcome` is an outcome of exchanging [`FREE`] for [`LOCKED`] in `word` with
/// `AtomicU32::compare_exchange`.
pub open spec fn exchanges(word: AtomicU32, outcome: Result<u32, u32>) -> bool {
    call_ensures(
        AtomicU32::compare_exchange,
        (&word, FREE, LOCKED, Ordering::Acquire, Ordering::Relaxed),
        outcome,
    )
}

/// Whether `before` is an outcome of replacing what `word` holds by [`CONTENDED`] with
/// `AtomicU32::swap`.
pub open spec fn announces(word: AtomicU32, before: u32) -> bool {
    call_ensures(AtomicU32::swap, (&word, CONTENDED, Ordering::AcqRel), before)
}

/// Whether `before` is an outcome of replacing what `word` holds by [`FREE`] with
/// `AtomicU32::swap`.
pub open spec fn releases(word: AtomicU32, before: u32) -> bool {
    call_ensures(AtomicU32::swap, (&word, FREE, Ordering::Release), before)
}

/// Makes a word with `f`.
fn made_word<F: Fn(u32) -> AtomicU32>(f: F, value: u32) -> (r: AtomicU32)
    requires
        call_requires(f, (value,)),
    ensures
        call_ensures(f, (value,), r),
{
    f(value)
}

/// Makes one step on a word with `f`, and returns what the word held before.
fn replaced_word<F: Fn(&AtomicU32, u32, Ordering) -> u32>(
    f: F,
    word: &AtomicU32,
    value: u32,
    order: Ordering,
) -> (r: u32)
    requires
        call_requires(f, (word, value, order)),
    ensures
        call_ensures(f, (word, value, order), r),
{
    f(word, value, order)
}

/// Makes one step with a condition on a word with `f`, and returns its outcome.
fn exchanged_word<F: Fn(&AtomicU32, u32, u32, Ordering, Ordering) -> Result<u32, u32>>(
    f: F,
    word: &AtomicU32,
    current: u32,
    value: u32,
    success: Ordering,
    failure: Ordering,
) -> (r: Result<u32, u32>)
    requires
        call_requires(f, (word, current, value, success, failure)),
    ensures
        call_ensures(f, (word, current, value, success, failure), r),
{
    f(word, current, value, success, failure)
}

/// The shared half of the lock: one word, [`FREE`] at first. Other threads and processes change the
/// word at any time, so that what a method returns is stated over what its own atomic step found in
/// the word.
#[derive(Debug)]
pub struct CrossProcessMutex {
    state: AtomicU32,
}

impl CrossProcessMutex {
    /// The word.
    pub closed spec fn word(self) -> AtomicU32 {
        self.state
    }

    /// A lock that is not held.
    pub fn new() -> (r: Self)
        ensures
            starts_free(r.word()),
    {
        CrossProcessMutex { state: made_word(AtomicU32::new, FREE) }
    }

    /// The word itself, for those who have to look at it or to reset it.
    pub fn raw_state(&self) -> (r: &AtomicU32)
        ensures
            *r == self.word(),
    {
        &self.state
    }

    /// Takes the lock if it is free. Returns whether it was taken; it never waits.
    pub fn try_lock(&self) -> (r: bool)
        ensures
            exists|outcome: Result<u32, u32>| #[trigger]
                exchanges(self.word(), outcome) && r == (outcome is Ok),
    {
        let outcome = exchanged_word(
            AtomicU32::compare_exchange,
            &self.state,
            FREE,
            LOCKED,
            Ordering::Acquire,
            Ordering::Relaxed,
        );
        assert(exchanges(self.word(), outcome));
        on_exchanged(outcome)
    }

    /// Takes the lock, or says that the thread has to sleep: after a first attempt, and some more in
    /// a busy wait, it announces a sleeper.
    pub fn lock(&self) -> (r: LockStep)
        ensures
            match r {
                LockStep::Acquired => {
                    ||| exists|outcome: Result<u32, u32>| #[trigger]
                        exchanges(self.word(), outcome) && outcome is Ok
                    ||| exists|before: u32| #[trigger]
                        announces(self.word(), before) && contend_word(before).1
                            == LockStep::Acquired
                },
                LockStep::Sleep => exists|before: u32| #[trigger]
                    announces(self.word(), before) && contend_word(before).1 == LockStep::Sleep,
            },
    {
        if self.try_lock() {
            return LockStep::Acquired;
        }
        self.lock_slow()
    }

    fn lock_slow(&self) -> (r: LockStep)
        ensures
            match r {
                LockStep::Acquired => {
                    ||| exists|outcome: Result<u32, u32>| #[trigger]
                        exchanges(self.word(), outcome) && outcome is Ok
                    ||| exists|before: u32| #[trigger]
                        announces(self.word(), before) && contend_word(before).1
                            == LockStep::Acquired
                },
                LockStep::Sleep => exists|before: u32| #[trigger]
                    announces(self.word(), before) && contend_word(before).1 == LockStep::Sleep,
            },
    {
        let mut spins: u32 = 0;
        while spins < SPIN_LIMIT
            invariant
                spins <= SPIN_LIMIT,
            decreases SPIN_LIMIT - spins,
        {
            core::hint::spin_loop();
            if self.try_lock() {
                return LockStep::Acquired;
            }
            spins = spins + 1;
        }
        self.contend()
    }

    /// Takes the lock, or announces a sleeper. This is also what a thread does when it was woken.
    pub fn contend(&self) -> (r: LockStep)
        ensures
            exists|before: u32| #[trigger]
                announces(self.word(), before) && r == contend_word(before).1,
    {
        let before: u32 = replaced_word(
            AtomicU32::swap,
            &self.state,
            CONTENDED,
            Ordering::AcqRel,
        );
        assert(announces(self.word(), before));
        on_contended(before)
    }

    /// Frees the lock and says whether a sleeper has to be woken.
    pub fn unlock(&self) -> (r: UnlockStep)
        ensures
            exists|before: u32| #[trigger]
                releases(self.word(), before) && r == unlock_word(before).1,
    {
        let before: u32 = replaced_word(AtomicU32::swap, &self.state, FREE, Ordering::Release);
        assert(releases(self.word(), before));
        on_released(before)
    }
}

impl Default for CrossProcessMutex {
    fn default() -> (r: Self)
        ensures
            starts_free(r.word()),
    {
        Self::new()
    }
}

/// The right of a thread that holds the lock to free it.
#[derive(Debug)]
#[must_use]
pub struct CrossProcessMutexGuard<'a> {
    mutex: &'a CrossProcessMutex,
}

impl<'a> CrossProcessMutexGuard<'a> {
    /// The lock.
    pub closed spec fn of(self) -> &'a CrossProcessMutex {
        self.mutex
    }

    /// The guard of a lock that this thread has taken.
    pub fn new(mutex: &'a CrossProcessMutex) -> (r: Self)
        ensures
            r.of() == mutex,
    {
        CrossProcessMutexGuard { mutex }
    }

    /// Frees the lock and says whether a sleeper has to be woken.
    pub fn unlock(self) -> (r: UnlockStep)
        ensures
            exists|before: u32| #[trigger]
                releases(self.of().word(), before) && r == unlock_word(before).1,
    {
        assert(self.of().word() == self.mutex.word());
        self.mutex.unlock()
    }
}

/// Why a wait ended without a signal.
#[derive(Debug, Clone, Copy, PartialEq, Eq, Structural)]
pub enum WaitError {
    /// The error of the operating system.
    Os(i32),
    /// The wait returned a value that it never returns.
    Unexpected(u32),
}

impl WaitError {
    /// The error in words.
    pub fn message(&self) -> (r: String)
        ensures
            match *self {
                WaitError::Os(code) => r@ == "os error "@ + numbers::decimal(code as int),
                WaitError::Unexpected(rc) => r@
                    == "WaitForSingleObject on cross-process event returned unexpected 0x"@
                    + numbers::digits(rc as nat, 16),
            },
    {
        match self {
            WaitError::Os(code) => {
                let mut out = "os error ".to_owned();
                numbers::push_decimal(&mut out, *code as i64);
                out
            },
            WaitError::Unexpected(rc) => {
                let mut out =
                    "WaitForSingleObject on cross-process event returned unexpected 0x".to_owned();
                numbers::push_digits(&mut out, *rc as u64, 16);
                out
            },
        }
    }
}

/// An error number of the system as a signed number, -1 if it is none.
pub open spec fn os_error(error: u32) -> i32 {
    if error <= i32::MAX {
        error as i32
    } else {
        -1i32
    }
}

/// An error number of the system as a signed number, -1 if it is none.
pub fn signed_error(error: u32) -> (r: i32)
    ensures
        r == os_error(error),
{
    if error <= 0x7FFF_FFFF {
        error as i32
    } else {
        -1
    }
}

/// An error number below 2^31 is told as it is, and any other as -1, which is none.
pub proof fn law_error_numbers_are_kept(error: u32)
    ensures
        os_error(error) >= 0 ==> os_error(error) == error,
        os_error(error) < 0 <==> error >= 0x8000_0000,
        os_error(error) >= -1,
{
}

/// Judges a wait without a time limit.
pub fn wait(rc: u32, error: u32) -> (r: Result<(), WaitError>)
    ensures
        r == if rc == WAIT_OBJECT_0 {
            Ok::<(), WaitError>(())
        } else if rc == WAIT_FAILED {
            Err::<(), WaitError>(WaitError::Os(os_error(error)))
        } else {
            Err::<(), WaitError>(WaitError::Unexpected(rc))
        },
{
    if rc == WAIT_OBJECT_0 {
        Ok(())
    } else if rc == WAIT_FAILED {
        Err(WaitError::Os(signed_error(error)))
    } else {
        Err(WaitError::Unexpected(rc))
    }
}

/// Judges a wait with a time limit: whether the event was signaled in time.
pub fn wait_timeout(rc: u32, error: u32) -> (r: Result<bool, WaitError>)
    ensures
        r == if rc == WAIT_OBJECT_0 {
            Ok::<bool, WaitError>(true)
        } else if rc == WAIT_TIMEOUT || (rc == WAIT_FAILED && error == ERROR_TIMEOUT) {
            Ok::<bool, WaitError>(false)
        } else if rc == WAIT_FAILED {
            Err::<bool, WaitError>(WaitError::Os(os_error(error)))
        } else {
            Err::<bool, WaitError>(WaitError::Unexpected(rc))
        },
{
    if rc == WAIT_OBJECT_0 {
        Ok(true)
    } else if rc == WAIT_TIMEOUT {
        Ok(false)
    } else if rc == WAIT_FAILED {
        if error == ERROR_TIMEOUT {
            Ok(false)
        } else {
            Err(WaitError::Os(signed_error(error)))
        }
    } else {
        Err(WaitError::Unexpected(rc))
    }
}

/// Where a thread stands.
pub enum ThreadState {
    /// It does nothing with the lock, or tries it without waiting.
    Idle,
    /// It is about to take the lock or to announce a sleeper.
    Contending,
    /// It sleeps on the event.
    Sleeping,
    /// It holds the lock.
    Holding,
    /// It has freed the lock and is about to signal the event.
    Signaling,
}

/// A state of the whole: the word, the event, and where each thread stands.
pub struct System {
    pub word: u32,
    pub signaled: bool,
    pub threads: Map<int, ThreadState>,
}

impl System {
    /// Whether some thread stands there.
    pub open spec fn some_holds(self) -> bool {
        exists|t: int| #[trigger] self.threads.dom().contains(t) && self.threads[t] is Holding
    }

    pub open spec fn some_sleeps(self) -> bool {
        exists|t: int| #[trigger] self.threads.dom().contains(t) && self.threads[t] is Sleeping
    }

    pub open spec fn some_contends(self) -> bool {
        exists|t: int| #[trigger] self.threads.dom().contains(t) && self.threads[t] is Contending
    }

    pub open spec fn some_signals(self) -> bool {
        exists|t: int| #[trigger] self.threads.dom().contains(t) && self.threads[t] is Signaling
    }

    /// At most one thread holds the lock, and the word says whether one does.
    pub open spec fn is_exclusive(self) -> bool {
        &&& forall|a: int, b: int|
            #![trigger self.threads[a], self.threads[b]]
            self.threads.dom().contains(a) && self.threads.dom().contains(b) && self.threads[a]
                is Holding && self.threads[b] is Holding ==> a == b
        &&& self.word != FREE <==> self.some_holds()
    }

    /// Whoever sleeps will be woken: the holder will see that it has to signal, or the event is
    /// signaled, or is about to be, or a thread that is awake is about to announce the sleepers
    /// again.
    pub open spec fn wakes_sleepers(self) -> bool {
        self.some_sleeps() ==> self.word == CONTENDED || self.signaled || self.some_signals()
            || self.some_contends()
    }

    /// What holds at all times.
    pub open spec fn inv(self) -> bool {
        &&& self.word == FREE || self.word == LOCKED || self.word == CONTENDED
        &&& self.is_exclusive()
        &&& self.wakes_sleepers()
    }
}

/// The state at first: the lock is free and every thread is idle.
pub open spec fn starts(s: System) -> bool {
    &&& s.word == FREE
    &&& !s.signaled
    &&& forall|t: int| #[trigger] s.threads.dom().contains(t) ==> s.threads[t] is Idle
}

/// The step of thread `t` from `s` to `n`.
pub open spec fn steps(s: System, n: System, t: int) -> bool {
    &&& s.threads.dom().contains(t)
    &&& match s.threads[t] {
        ThreadState::Idle => {
            // It takes the lock at once, or finds it taken and gives up, or goes on to wait for it.
            ||| n == (System {
                word: try_lock_word(s.word).0,
                threads: s.threads.insert(
                    t,
                    if try_lock_word(s.word).1 {
                        ThreadState::Holding
                    } else {
                        ThreadState::Idle
                    },
                ),
                ..s
            })
            ||| n == (System { threads: s.threads.insert(t, ThreadState::Contending), ..s })
        },
        ThreadState::Contending => n == (System {
            word: contend_word(s.word).0,
            threads: s.threads.insert(
                t,
                match contend_word(s.word).1 {
                    LockStep::Acquired => ThreadState::Holding,
                    LockStep::Sleep => ThreadState::Sleeping,
                },
            ),
            ..s
        }),
        ThreadState::Sleeping => s.signaled && n == (System {
            signaled: false,
            threads: s.threads.insert(t, ThreadState::Contending),
            ..s
        }),
        ThreadState::Holding => n == (System {
            word: unlock_word(s.word).0,
            threads: s.threads.insert(
                t,
                if unlock_word(s.word).1 == UnlockStep::Signal {
                    ThreadState::Signaling
                } else {
                    ThreadState::Idle
                },
            ),
            ..s
        }),
        ThreadState::Signaling => n == (System {
            signaled: true,
            threads: s.threads.insert(t, ThreadState::Idle),
            ..s
        }),
    }
}

/// Whether the state at `i` is followed by what a step of some thread makes of it.
pub open spec fn is_followed(run: Seq<System>, i: int) -> bool {
    exists|t: int| #[trigger] steps(run[i], run[i + 1], t)
}

/// Whether the states follow each other, each by a step of some thread, from a first one.
pub open spec fn is_run(run: Seq<System>) -> bool {
    &&& run.len() > 0
    &&& starts(run[0])
    &&& forall|i: int| 0 <= i < run.len() - 1 ==> #[trigger] is_followed(run, i)
}

proof fn lemma_step_keeps_exclusion(s: System, n: System, t: int)
    requires
        s.inv(),
        steps(s, n, t),
    ensures
        n.is_exclusive(),
{
    assert(n.threads.dom() =~= s.threads.dom());
    assert(forall|u: int| u != t && s.threads.dom().contains(u) ==> n.threads[u] == s.threads[u]);
    if s.some_holds() {
        let h = choose|h: int| #[trigger]
            s.threads.dom().contains(h) && s.threads[h] is Holding;
        if h != t {
            assert(n.threads.dom().contains(h) && n.threads[h] is Holding);
        }
    }
    if n.threads[t] is Holding {
        assert(n.threads.dom().contains(t));
    }
}

proof fn lemma_step_wakes_sleepers(s: System, n: System, t: int)
    requires
        s.inv(),
        steps(s, n, t),
    ensures
        n.wakes_sleepers(),
{
    assert(n.threads.dom() =~= s.threads.dom());
    assert(forall|u: int| u != t && s.threads.dom().contains(u) ==> n.threads[u] == s.threads[u]);
    if n.some_sleeps() {
        let z = choose|z: int| #[trigger]
            n.threads.dom().contains(z) && n.threads[z] is Sleeping;
        if z != t {
            assert(s.threads.dom().contains(z) && s.threads[z] is Sleeping);
            assert(s.some_sleeps());
        }
        assert(n.threads.dom().contains(t));
        if s.some_signals() {
            let g = choose|g: int| #[trigger]
                s.threads.dom().contains(g) && s.threads[g] is Signaling;
            assert(g != t ==> n.threads.dom().contains(g) && n.threads[g] is Signaling);
        }
        if s.some_contends() {
            let c = choose|c: int| #[trigger]
                s.threads.dom().contains(c) && s.threads[c] is Contending;
            assert(c != t ==> n.threads.dom().contains(c) && n.threads[c] is Contending);
        }
    }
}

proof fn lemma_run(run: Seq<System>, i: int)
    requires
        is_run(run),
        0 <= i < run.len(),
    ensures
        run[i].inv(),
    decreases i,
{
    if i > 0 {
        lemma_run(run, i - 1);
        let s = run[i - 1];
        let n = run[i];
        assert(is_followed(run, i - 1));
        let t = choose|t: int| #[trigger] steps(run[i - 1], run[i - 1 + 1], t);
        lemma_step_keeps_exclusion(s, n, t);
        lemma_step_wakes_sleepers(s, n, t);
    }
}

/// Mutual exclusion: however the steps of the threads follow each other, at no time do two of them
/// hold the lock, and the word is free exactly when none does.
pub proof fn law_mutual_exclusion(run: Seq<System>, i: int)
    requires
        is_run(run),
        0 <= i < run.len(),
    ensures
        run[i].is_exclusive(),
{
    lemma_run(run, i);
}

/// No wakeup is lost: at no time is the lock free while a thread sleeps and nothing is under way
/// that wakes it.
pub proof fn law_no_lost_wakeup(run: Seq<System>, i: int)
    requires
        is_run(run),
        0 <= i < run.len(),
        run[i].some_sleeps(),
    ensures
        run[i].word == FREE ==> run[i].signaled || run[i].some_signals() || run[i].some_contends(),
        run[i].word == LOCKED ==> run[i].signaled || run[i].some_signals()
            || run[i].some_contends(),
        run[i].word == CONTENDED ==> run[i].some_holds(),
{
    lemma_run(run, i);
}

/// A release is never refused: a thread that holds the lock finds the word in one of the two states
/// of a held lock.
pub proof fn law_release_is_sound(run: Seq<System>, i: int, t: int)
    requires
        is_run(run),
        0 <= i < run.len(),
        run[i].threads.dom().contains(t),
        run[i].threads[t] is Holding,
    ensures
        unlock_word(run[i].word).1 == UnlockStep::Signal || unlock_word(run[i].word).1
            == UnlockStep::Released,
{
    lemma_run(run, i);
    assert(run[i].some_holds());
}

/// What a thread is told follows from what its step found in the word: a free lock is acquired, a
/// held one is waited for, and a release signals exactly if a sleeper was announced, which is also
/// when a guard may not be dropped silently.
pub proof fn law_steps_tell_what_they_found(
    found: u32,
    locked: LockStep,
    released: UnlockStep,
    silent: bool,
)
    requires
        call_ensures(on_contended, (found,), locked),
        call_ensures(on_released, (found,), released),
        call_ensures(may_drop_silently, (found,), silent),
    ensures
        locked == LockStep::Acquired <==> found == 0,
        locked == LockStep::Sleep <==> found != 0,
        released == UnlockStep::Signal <==> found == 2,
        released == UnlockStep::Released <==> found == 1,
        released == UnlockStep::NotHeld <==> found == 0,
        silent <==> released != UnlockStep::Signal,
{
}

/// A wait that was signaled succeeds, one whose time was up is no error where there is a limit, and
/// everything else is an error that tells what happened.
pub proof fn law_waits_are_judged(
    rc: u32,
    error: u32,
    endless: Result<(), WaitError>,
    limited: Result<bool, WaitError>,
)
    requires
        call_ensures(wait, (rc, error), endless),
        call_ensures(wait_timeout, (rc, error), limited),
    ensures
        endless is Ok <==> rc == 0,
        limited == Ok::<bool, WaitError>(true) <==> rc == 0,
        limited == Ok::<bool, WaitError>(false) <==> rc == 258 || rc == 0xFFFF_FFFF && error == 1460,
        rc == 0xFFFF_FFFF && error < 0x8000_0000 ==> endless == Err::<(), WaitError>(
            WaitError::Os(error as i32),
        ),
        rc != 0 && rc != 258 && rc != 0xFFFF_FFFF ==> limited == Err::<bool, WaitError>(
            WaitError::Unexpected(rc),
        ),
{
}

/// What the steps on the word write: a try exchanges 0 for 1, a thread that finds the lock held
/// leaves 2, and whoever gives it back leaves 0.
pub proof fn law_steps_write_their_numbers(
    word: AtomicU32,
    outcome: Result<u32, u32>,
    before: u32,
)
    ensures
        exchanges(word, outcome) ==> call_ensures(
            AtomicU32::compare_exchange,
            (&word, 0u32, 1u32, Ordering::Acquire, Ordering::Relaxed),
            outcome,
        ),
        announces(word, before) ==> call_ensures(
            AtomicU32::swap,
            (&word, 2u32, Ordering::AcqRel),
            before,
        ),
        releases(word, before) ==> call_ensures(
            AtomicU32::swap,
            (&word, 0u32, Ordering::Release),
            before,
        ),
        starts_free(word) ==> call_ensures(AtomicU32::new, (0u32,), word),
{
}

} // verus!
