//! The lock that serializes all entries into one stack.
//!
//! The lock word has three states: free, held, and held while threads may be
//! parked. A thread takes a free lock at once. Where the lock is held it spins,
//! then yields, and where parking is enabled it finally marks the word as
//! contended and parks. A thread that has been parked takes the lock with the
//! mark, so that its own release keeps waking the queue.
//!
//! `AtomicMutex` is the lock word as a value. Each operation here is one
//! indivisible transition of it; the owner of the shared word performs it with
//! a compare-and-exchange, and carries out the waiting that it calls for.

use vstd::prelude::*;
use vstd::string::*;

use crate::lock_stats::{LockStats, NSITES, SITE_OTHER};
use crate::text;
use crate::text::{quote, same_text, RawSetting};

verus! {

/// How often a waiter looks again before it starts to yield.
pub const LOCK_SPIN_BUDGET: u32 = 64;

/// How often a waiter yields before it parks.
pub const LOCK_YIELD_BUDGET: u32 = 16;

/// The lock is free.
pub const UNLOCKED: u8 = 0;

/// The lock is held.
pub const LOCKED: u8 = 1;

/// The lock is held, and threads may be parked on it.
pub const LOCKED_CONTENDED: u8 = 2;

/// Reads the switch for parking. `None` leaves parking as it is; `Some` turns it
/// on or off.
pub fn init_park_from_env(park_supported: bool, raw: RawSetting<'_>) -> (parked: Result<
    Option<bool>,
    String,
>)
    ensures
        match raw {
            RawSetting::Unset => parked == Ok::<Option<bool>, String>(None),
            RawSetting::Text(text) => if text@ == "1"@ {
                if park_supported {
                    parked == Ok::<Option<bool>, String>(Some(true))
                } else {
                    parked matches Err(message) && message@
                        == "PANDA_LWIP_LOCK_PARK=1 is not supported on mobile packet tunnels"@
                }
            } else if text@ == "0"@ {
                parked == Ok::<Option<bool>, String>(Some(false))
            } else {
                parked matches Err(message) && message@
                    == "PANDA_LWIP_LOCK_PARK must be \"0\" or \"1\", got Some("@
                    + text::debug_quoted(text@) + ")"@
            },
            RawSetting::NotUnicode => parked matches Err(message) && message@
                == "PANDA_LWIP_LOCK_PARK must be \"0\" or \"1\", got None"@,
        },
{
    proof {
        reveal_strlit("0");
        reveal_strlit("1");
        assert("0"@[0] != "1"@[0]);
    }
    match raw {
        RawSetting::Unset => Ok(None),
        RawSetting::Text(text) => {
            if same_text(text, "1") {
                if !park_supported {
                    return Err(
                        "PANDA_LWIP_LOCK_PARK=1 is not supported on mobile packet tunnels".to_owned(),
                    );
                }
                return Ok(Some(true));
            }
            if same_text(text, "0") {
                return Ok(Some(false));
            }
            let quoted = quote(text);
            let mut message =
                "PANDA_LWIP_LOCK_PARK must be \"0\" or \"1\", got Some(".to_owned();
            message.append(quoted.as_str());
            message.append(")");
            Err(message)
        },
        RawSetting::NotUnicode => Err(
            "PANDA_LWIP_LOCK_PARK must be \"0\" or \"1\", got None".to_owned(),
        ),
    }
}

/// The lock was held.
#[derive(Clone, Copy, Debug)]
pub struct AtomicMutexErr;

impl AtomicMutexErr {
    /// The message of this error.
    pub fn message(&self) -> (message: String)
        ensures
            message@ == "Mutex is already locked"@,
    {
        "Mutex is already locked".to_owned()
    }
}

/// The right to use what the lock protects, until the lock is released. Holds
/// the time of acquisition and the site where statistics are kept.
#[derive(Debug)]
pub struct AtomicMutexGuard {
    pub stats: Option<(u64, usize)>,
}

impl AtomicMutexGuard {
    /// The site, where there is one, has an entry in the statistics.
    pub open spec fn wf(&self) -> bool {
        self.stats matches Some((_, site)) ==> site < NSITES
    }
}

/// A thread that waits for the lock: whether it may park, how often it has
/// looked, whether it must take the lock with the mark, and where it started.
#[derive(Clone, Copy, Debug)]
pub struct LockWaiter {
    pub park: bool,
    pub spins: u32,
    pub acquire_contended: bool,
    pub started: Option<u64>,
    pub site: usize,
}

impl LockWaiter {
    /// The site has an entry in the statistics, where they are kept.
    pub open spec fn wf(&self) -> bool {
        self.started is Some ==> self.site < NSITES
    }

    /// The thread came back from parking, woken or because the park was called
    /// off. It takes the lock with the mark from now on, and gets a fresh budget
    /// of yields.
    pub fn resumed(&mut self)
        ensures
            *final(self) == (LockWaiter {
                acquire_contended: true,
                spins: LOCK_SPIN_BUDGET,
                ..*old(self)
            }),
    {
        self.acquire_contended = true;
        self.spins = LOCK_SPIN_BUDGET;
    }
}

/// A lock that has just been taken: when the attempt began, where statistics are
/// kept, and at which site.
#[derive(Clone, Copy, Debug)]
pub struct Acquisition {
    pub started: Option<u64>,
    pub site: usize,
}

impl Acquisition {
    /// The site has an entry in the statistics, where they are kept.
    pub open spec fn wf(&self) -> bool {
        self.started is Some ==> self.site < NSITES
    }

    /// What the tenure of this acquisition, which begins at `acquired`, does to the
    /// statistics: it counts, and so does the time that was waited until then.
    pub open spec fn begun(
        self,
        before: LockStats,
        acquired: u64,
        after: LockStats,
        guard: AtomicMutexGuard,
    ) -> bool {
        match self.started {
            None => guard.stats is None && after == before,
            Some(started) => {
                &&& guard.stats == Some((acquired, self.site))
                &&& after.enabled == before.enabled
                &&& after.sites@ == before.sites@.update(
                    self.site as int,
                    before.sites@[self.site as int].acquired(elapsed(started, acquired)),
                )
            },
        }
    }

    /// Begins the tenure of a lock that has been taken. `acquired` is the time now
    /// that it is held; it is read only where the attempt was timed.
    pub fn begin(self, stats: &mut LockStats, acquired: u64) -> (guard: AtomicMutexGuard)
        requires
            self.wf(),
            old(stats).wf(),
        ensures
            final(stats).wf(),
            guard.wf(),
            self.begun(*old(stats), acquired, *final(stats), guard),
    {
        match self.started {
            None => AtomicMutexGuard { stats: None },
            Some(started) => {
                stats.record_acquired(self.site, time_since(started, acquired));
                AtomicMutexGuard { stats: Some((acquired, self.site)) }
            },
        }
    }
}

/// How far an attempt to take the lock came.
#[derive(Debug)]
pub enum LockProgress {
    Acquired(Acquisition),
    Contended(LockWaiter),
}

/// What a waiting thread does next.
#[derive(Debug)]
pub enum WaitStep {
    Acquired(Acquisition),
    SpinLoop,
    YieldNow,
    /// The word carries the mark: park, provided it still does.
    Park,
}

/// The word with which a waiter takes a free lock.
pub open spec fn acquired_word(contended: bool) -> u8 {
    if contended {
        LOCKED_CONTENDED
    } else {
        LOCKED
    }
}

/// The time from `from` to `to`, none where the clock ran backwards.
pub open spec fn elapsed(from: u64, to: u64) -> u64 {
    if from <= to {
        (to - from) as u64
    } else {
        0
    }
}

/// The time from `from` to `to`.
fn time_since(from: u64, to: u64) -> (ns: u64)
    ensures
        ns == elapsed(from, to),
{
    if from <= to {
        to - from
    } else {
        0
    }
}

/// The word of a lock.
#[derive(Clone, Copy, Debug, PartialEq, Eq, Structural)]
pub struct AtomicMutex {
    pub state: u8,
}

impl AtomicMutex {
    /// The word is one of its three states.
    pub open spec fn wf(&self) -> bool {
        self.state == UNLOCKED || self.state == LOCKED || self.state == LOCKED_CONTENDED
    }

    /// A free lock.
    pub fn new() -> (mutex: Self)
        ensures
            mutex == (AtomicMutex { state: UNLOCKED }),
            mutex.wf(),
    {
        AtomicMutex { state: UNLOCKED }
    }

    /// Takes the lock if it is free.
    pub fn try_lock(&mut self) -> (taken: Result<AtomicMutexGuard, AtomicMutexErr>)
        requires
            old(self).wf(),
        ensures
            final(self).wf(),
            match taken {
                Ok(guard) => old(self).state == UNLOCKED && final(self).state == acquired_word(false)
                    && guard.stats is None,
                Err(_) => old(self).state != UNLOCKED && *final(self) == *old(self),
            },
    {
        if self.state == UNLOCKED {
            self.state = LOCKED;
            Ok(AtomicMutexGuard { stats: None })
        } else {
            Err(AtomicMutexErr)
        }
    }

    /// Begins to take the lock, on behalf of no site in particular.
    pub fn lock(&mut self, stats: &LockStats, park: bool, now: u64) -> (progress: LockProgress)
        requires
            old(self).wf(),
        ensures
            final(self).wf(),
            old(self).lock_started(SITE_OTHER, stats.enabled, park, now, *final(self), progress),
    {
        self.lock_at(SITE_OTHER, stats, park, now)
    }

    /// What beginning to take the lock at `site` at the time `now` does. The attempt is
    /// `timed` where statistics are kept.
    pub open spec fn lock_started(
        self,
        site: usize,
        timed: bool,
        park: bool,
        now: u64,
        after: Self,
        progress: LockProgress,
    ) -> bool {
        let started = if timed {
            Some(now)
        } else {
            None
        };
        match progress {
            LockProgress::Acquired(taken) => {
                &&& self.state == UNLOCKED
                &&& after.state == acquired_word(false)
                &&& taken == (Acquisition { started, site })
            },
            LockProgress::Contended(waiter) => {
                &&& self.state != UNLOCKED
                &&& after == self
                &&& waiter == (LockWaiter {
                    park,
                    spins: 0,
                    acquire_contended: false,
                    started,
                    site,
                })
            },
        }
    }

    /// Begins to take the lock at `site`. `park` says whether a waiter may park.
    pub fn lock_at(
        &mut self,
        site: usize,
        stats: &LockStats,
        park: bool,
        now: u64,
    ) -> (progress: LockProgress)
        requires
            old(self).wf(),
            stats.enabled ==> site < NSITES,
        ensures
            final(self).wf(),
            old(self).lock_started(site, stats.enabled, park, now, *final(self), progress),
    {
        let started = if stats.enabled {
            Some(now)
        } else {
            None
        };
        match self.try_lock() {
            Ok(_) => LockProgress::Acquired(Acquisition { started, site }),
            Err(_) => LockProgress::Contended(
                LockWaiter { park, spins: 0, acquire_contended: false, started, site },
            ),
        }
    }

    /// What one look of a waiting thread at the lock does.
    pub open spec fn looked(
        self,
        waiter: LockWaiter,
        after: Self,
        waiter_after: LockWaiter,
        step: WaitStep,
    ) -> bool {
        if self.state == UNLOCKED {
            &&& step == WaitStep::Acquired(
                Acquisition { started: waiter.started, site: waiter.site },
            )
            &&& after.state == acquired_word(waiter.acquire_contended)
            &&& waiter_after == waiter
        } else {
            let spins = if waiter.spins == u32::MAX {
                0
            } else {
                waiter.spins + 1
            };
            &&& waiter_after == (LockWaiter { spins: spins as u32, ..waiter })
            &&& if spins < LOCK_SPIN_BUDGET {
                step is SpinLoop && after == self
            } else if !waiter.park || spins < LOCK_SPIN_BUDGET + LOCK_YIELD_BUDGET {
                step is YieldNow && after == self
            } else {
                step is Park && after.state == LOCKED_CONTENDED
            }
        }
    }

    /// One look of a waiting thread at the lock: it takes the lock if it is free,
    /// and otherwise spins, yields or parks, by how often it has looked. The count
    /// of looks wraps around.
    pub fn lock_contended(&mut self, waiter: &mut LockWaiter) -> (step: WaitStep)
        requires
            old(self).wf(),
        ensures
            final(self).wf(),
            old(waiter).wf() ==> final(waiter).wf(),
            old(self).looked(*old(waiter), *final(self), *final(waiter), step),
    {
        if self.state == UNLOCKED {
            self.state = if waiter.acquire_contended {
                LOCKED_CONTENDED
            } else {
                LOCKED
            };
            return WaitStep::Acquired(
                Acquisition { started: waiter.started, site: waiter.site },
            );
        }
        waiter.spins = waiter.spins.wrapping_add(1);
        if waiter.spins < LOCK_SPIN_BUDGET {
            return WaitStep::SpinLoop;
        }
        if !waiter.park || waiter.spins < LOCK_SPIN_BUDGET + LOCK_YIELD_BUDGET {
            return WaitStep::YieldNow;
        }
        if self.state == LOCKED {
            self.state = LOCKED_CONTENDED;
        }
        WaitStep::Park
    }

    /// Whether a thread about to park may do so: an unlock that came first took
    /// the mark away, and would wake nobody.
    pub fn may_park(&self) -> (park: bool)
        ensures
            park == (self.state == LOCKED_CONTENDED),
    {
        self.state == LOCKED_CONTENDED
    }

    /// What releasing the lock does to the word, and whether a parked thread is to be
    /// woken.
    pub open spec fn released(self, after: Self, wake: bool) -> bool {
        &&& after == (AtomicMutex { state: UNLOCKED })
        &&& wake == (self.state == LOCKED_CONTENDED)
    }

    /// Releases the lock. Returns whether a parked thread is to be woken.
    pub fn unlock(&mut self, guard: AtomicMutexGuard, stats: &mut LockStats, now: u64) -> (wake: bool)
        requires
            old(self).wf(),
            old(self).state != UNLOCKED,
            guard.wf(),
            old(stats).wf(),
        ensures
            old(self).released(*final(self), wake),
            final(stats).wf(),
            match guard.stats {
                None => *final(stats) == *old(stats),
                Some((acquired, site)) => {
                    &&& final(stats).enabled == old(stats).enabled
                    &&& final(stats).sites@ == old(stats).sites@.update(
                        site as int,
                        old(stats).sites@[site as int].released(elapsed(acquired, now)),
                    )
                },
            },
    {
        if let Some((acquired, site)) = guard.stats {
            stats.record_released(site, time_since(acquired, now));
        }
        let previous: u8 = self.state;
        self.state = UNLOCKED;
        previous == LOCKED_CONTENDED
    }
}

impl Default for AtomicMutex {
    fn default() -> (mutex: Self)
        ensures
            mutex == (AtomicMutex { state: UNLOCKED }),
    {
        AtomicMutex::new()
    }
}

/// Where a thread stands with respect to one lock.
pub enum Phase {
    /// It does not use the lock.
    Idle,
    /// It waits, awake. A guardian has been parked before, and takes the lock
    /// with the mark.
    Waiting { guardian: bool },
    /// It sleeps in the queue of the lock.
    Parked,
    /// It holds the lock.
    Holding,
    /// It has released the lock and is about to wake a parked thread.
    Releasing,
}

/// A lock word together with all threads that use it.
pub struct LockSystem {
    pub word: AtomicMutex,
    pub threads: Map<u64, Phase>,
}

/// What one thread does next to the lock.
pub enum LockAction {
    /// Begin to take the lock.
    Start,
    /// Look at the lock while waiting.
    Look,
    /// Put the mark on a held lock.
    Mark,
    /// Go to sleep, provided the mark is there.
    Park,
    /// Release the lock.
    Unlock,
    /// Wake one parked thread, here `woken`, if there is one.
    Wake { woken: u64 },
}

impl LockSystem {
    /// A free lock that no thread uses.
    pub open spec fn idle(self) -> bool {
        &&& self.word == (AtomicMutex { state: UNLOCKED })
        &&& forall|t: u64| #[trigger] self.threads[t] is Idle
    }

    /// The system after thread `t` moved to `phase` and the word became `word`.
    pub open spec fn with(self, t: u64, phase: Phase, word: u8) -> Self {
        LockSystem {
            word: AtomicMutex { state: word },
            threads: self.threads.insert(t, phase),
        }
    }

    /// One indivisible step of thread `t`, as the operations on the lock word
    /// perform it.
    pub open spec fn steps(self, t: u64, action: LockAction, after: Self) -> bool {
        match action {
            LockAction::Start => {
                &&& self.threads[t] is Idle
                &&& after == if self.word.state == UNLOCKED {
                    self.with(t, Phase::Holding, acquired_word(false))
                } else {
                    self.with(t, Phase::Waiting { guardian: false }, self.word.state)
                }
            },
            LockAction::Look => {
                &&& self.threads[t] matches Phase::Waiting { guardian }
                &&& after == if self.word.state == UNLOCKED {
                    self.with(t, Phase::Holding, acquired_word(guardian))
                } else {
                    self
                }
            },
            LockAction::Mark => {
                &&& self.threads[t] is Waiting
                &&& self.word.state != UNLOCKED
                &&& after == self.with(t, self.threads[t], LOCKED_CONTENDED)
            },
            LockAction::Park => {
                &&& self.threads[t] is Waiting
                &&& after == if self.word.state == LOCKED_CONTENDED {
                    self.with(t, Phase::Parked, self.word.state)
                } else {
                    self.with(t, Phase::Waiting { guardian: true }, self.word.state)
                }
            },
            LockAction::Unlock => {
                &&& self.threads[t] is Holding
                &&& after == if self.word.state == LOCKED_CONTENDED {
                    self.with(t, Phase::Releasing, UNLOCKED)
                } else {
                    self.with(t, Phase::Idle, UNLOCKED)
                }
            },
            LockAction::Wake { woken } => {
                &&& self.threads[t] is Releasing
                &&& if self.threads[woken] is Parked {
                    after == self.with(t, Phase::Idle, self.word.state).with(
                        woken,
                        Phase::Waiting { guardian: true },
                        self.word.state,
                    )
                } else {
                    // The queue was empty.
                    &&& forall|p: u64| !(#[trigger] self.threads[p] is Parked)
                    &&& after == self.with(t, Phase::Idle, self.word.state)
                }
            },
        }
    }

    /// The word is valid, and held exactly while some thread holds the lock.
    pub open spec fn word_matches_holder(self) -> bool {
        &&& self.word.wf()
        &&& forall|t: u64| #[trigger] self.threads.dom().contains(t)
        &&& (self.word.state != UNLOCKED <==> exists|t: u64| #[trigger] self.threads[t] is Holding)
    }

    /// No two threads hold the lock.
    pub open spec fn excludes(self) -> bool {
        forall|s: u64, t: u64|
            #[trigger] self.threads[s] is Holding && #[trigger] self.threads[t] is Holding ==> s
                == t
    }

    /// While a thread is parked, the mark is on the word, or a guardian is awake,
    /// or a release is about to wake a parked thread.
    pub open spec fn parked_are_guarded(self) -> bool {
        (exists|p: u64| #[trigger] self.threads[p] is Parked) ==> {
            ||| self.word.state == LOCKED_CONTENDED
            ||| exists|g: u64|
                #[trigger] self.threads[g] == (Phase::Waiting { guardian: true })
            ||| exists|r: u64| #[trigger] self.threads[r] is Releasing
        }
    }

    /// All of the above.
    pub open spec fn safe(self) -> bool {
        &&& self.word_matches_holder()
        &&& self.excludes()
        &&& self.parked_are_guarded()
    }
}

/// Where a thread stands that began to take the lock.
pub open spec fn phase_started(progress: LockProgress) -> Phase {
    match progress {
        LockProgress::Acquired(_) => Phase::Holding,
        LockProgress::Contended(waiter) => Phase::Waiting { guardian: waiter.acquire_contended },
    }
}

/// Beginning to take the lock is a step of the thread that does it.
pub proof fn law_beginning_is_a_step(
    system: LockSystem,
    t: u64,
    site: usize,
    timed: bool,
    park: bool,
    now: u64,
    after: AtomicMutex,
    progress: LockProgress,
)
    requires
        system.threads[t] is Idle,
        system.word.lock_started(site, timed, park, now, after, progress),
    ensures
        system.steps(
            t,
            LockAction::Start,
            system.with(t, phase_started(progress), after.state),
        ),
{
}

/// A look of a waiting thread at the lock is a step: it looks, or it puts the mark
/// on the lock before it parks. Where it takes the lock it holds it, and otherwise
/// it still waits.
pub proof fn law_looking_is_a_step(
    system: LockSystem,
    t: u64,
    waiter: LockWaiter,
    after: AtomicMutex,
    waiter_after: LockWaiter,
    step: WaitStep,
)
    requires
        forall|u: u64| #[trigger] system.threads.dom().contains(u),
        system.threads[t] == (Phase::Waiting { guardian: waiter.acquire_contended }),
        system.word.looked(waiter, after, waiter_after, step),
    ensures
        system.steps(
            t,
            if step is Park {
                LockAction::Mark
            } else {
                LockAction::Look
            },
            system.with(
                t,
                if step is Acquired {
                    Phase::Holding
                } else {
                    Phase::Waiting { guardian: waiter_after.acquire_contended }
                },
                after.state,
            ),
        ),
{
    assert(system.threads.dom().contains(t));
    assert(system.threads.insert(t, system.threads[t]) =~= system.threads);
}

/// Parking, or calling it off because the mark is gone, is a step. Either way the
/// thread takes the lock with the mark when it is back.
pub proof fn law_parking_is_a_step(system: LockSystem, t: u64, may_park: bool)
    requires
        system.threads[t] is Waiting,
        call_ensures(AtomicMutex::may_park, (&system.word,), may_park),
    ensures
        system.steps(
            t,
            LockAction::Park,
            system.with(
                t,
                if may_park {
                    Phase::Parked
                } else {
                    Phase::Waiting { guardian: true }
                },
                system.word.state,
            ),
        ),
{
}

/// Releasing the lock is a step, after which a parked thread is woken where the
/// release says so.
pub proof fn law_releasing_is_a_step(system: LockSystem, t: u64, after: AtomicMutex, wake: bool)
    requires
        system.threads[t] is Holding,
        system.word.released(after, wake),
    ensures
        system.steps(
            t,
            LockAction::Unlock,
            system.with(
                t,
                if wake {
                    Phase::Releasing
                } else {
                    Phase::Idle
                },
                after.state,
            ),
        ),
{
}

/// Stacks have locks of their own: whatever a thread does to one lock leaves every
/// other as it is, so one that is free is taken at once however the first is held.
pub proof fn law_a_held_lock_blocks_no_other(
    locks: Seq<LockSystem>,
    id: int,
    t: u64,
    action: LockAction,
    moved: LockSystem,
    other: int,
    u: u64,
)
    requires
        0 <= id < locks.len(),
        0 <= other < locks.len(),
        id != other,
        locks[id].steps(t, action, moved),
        locks[other].word.state == UNLOCKED,
        locks[other].threads[u] is Idle,
    ensures
        locks.update(id, moved)[other] == locks[other],
        locks.update(id, moved)[other].steps(
            u,
            LockAction::Start,
            locks[other].with(u, Phase::Holding, LOCKED),
        ),
{
}

/// A lock that nobody uses is safe.
pub proof fn law_an_idle_lock_is_safe(system: LockSystem)
    requires
        system.idle(),
        forall|t: u64| #[trigger] system.threads.dom().contains(t),
    ensures
        system.safe(),
{
    assert forall|t: u64| !(#[trigger] system.threads[t] is Holding) by {
        assert(system.threads[t] is Idle);
    }
    assert forall|t: u64| !(#[trigger] system.threads[t] is Parked) by {
        assert(system.threads[t] is Idle);
    }
}

/// Every step of every thread keeps the lock safe: at most one thread holds it,
/// and no parked thread is stranded.
pub proof fn law_every_step_keeps_the_lock_safe(
    system: LockSystem,
    t: u64,
    action: LockAction,
    after: LockSystem,
)
    requires
        system.safe(),
        system.steps(t, action, after),
    ensures
        after.safe(),
{
    assert forall|u: u64| #[trigger] after.threads.dom().contains(u) by {
        assert(system.threads.dom().contains(u));
    }
    match action {
        LockAction::Start => {
            lemma_takes_or_waits(system, t, after);
        },
        LockAction::Look => {
            lemma_takes_or_waits(system, t, after);
        },
        LockAction::Mark => {
            assert(after.threads =~= system.threads);
        },
        LockAction::Park => {
            lemma_same_holders(system, after, t);
            if system.word.state != LOCKED_CONTENDED {
                assert(after.threads[t] == (Phase::Waiting { guardian: true }));
            }
        },
        LockAction::Unlock => {
            assert forall|u: u64| !(#[trigger] after.threads[u] is Holding) by {
                if u != t {
                    assert(system.threads[u] == after.threads[u]);
                    assert(system.threads[t] is Holding);
                }
            }
            lemma_guards_stay(system, after, t);
            if system.word.state == LOCKED_CONTENDED {
                assert(after.threads[t] is Releasing);
            }
        },
        LockAction::Wake { woken } => {
            assert forall|u: u64|
                (#[trigger] after.threads[u] is Holding) == (system.threads[u] is Holding) by {}
            if system.word.state != UNLOCKED {
                let h = choose|h: u64| #[trigger] system.threads[h] is Holding;
                assert(after.threads[h] is Holding);
            }
            if system.threads[woken] is Parked {
                assert(after.threads[woken] == (Phase::Waiting { guardian: true }));
            } else {
                assert forall|u: u64| !(#[trigger] after.threads[u] is Parked) by {
                    assert(!(system.threads[u] is Parked));
                }
            }
        },
    }
}

/// A step of `t` that neither takes nor releases the lock leaves its holder.
proof fn lemma_same_holders(system: LockSystem, after: LockSystem, t: u64)
    requires
        system.safe(),
        after.threads == system.threads.insert(t, after.threads[t]),
        !(system.threads[t] is Holding),
        !(after.threads[t] is Holding),
        after.word == system.word,
        forall|u: u64| #[trigger] after.threads.dom().contains(u),
    ensures
        after.word_matches_holder(),
        after.excludes(),
{
    assert forall|u: u64|
        (#[trigger] after.threads[u] is Holding) == (system.threads[u] is Holding) by {}
    if system.word.state != UNLOCKED {
        let h = choose|h: u64| #[trigger] system.threads[h] is Holding;
        assert(after.threads[h] is Holding);
    }
}

/// Those that guard parked threads do so still after another thread moved.
proof fn lemma_guards_stay(system: LockSystem, after: LockSystem, t: u64)
    requires
        after.threads == system.threads.insert(t, after.threads[t]),
    ensures
        forall|g: u64|
            g != t && #[trigger] system.threads[g] == (Phase::Waiting { guardian: true })
                ==> after.threads[g] == (Phase::Waiting { guardian: true }),
        forall|r: u64|
            r != t && #[trigger] system.threads[r] is Releasing ==> after.threads[r] is Releasing,
        forall|p: u64|
            p != t && #[trigger] after.threads[p] is Parked ==> system.threads[p] is Parked,
{
}

/// A thread that takes a free lock, or starts to wait for a held one, keeps the
/// lock safe.
proof fn lemma_takes_or_waits(system: LockSystem, t: u64, after: LockSystem)
    requires
        system.safe(),
        system.threads[t] is Idle || system.threads[t] is Waiting,
        forall|u: u64| #[trigger] after.threads.dom().contains(u),
        if system.word.state == UNLOCKED {
            let guardian = system.threads[t] == (Phase::Waiting { guardian: true });
            after == system.with(t, Phase::Holding, acquired_word(guardian))
        } else {
            ||| after == system
            ||| system.threads[t] is Idle && after == system.with(
                t,
                Phase::Waiting { guardian: false },
                system.word.state,
            )
        },
    ensures
        after.safe(),
{
    if system.word.state == UNLOCKED {
        assert forall|u: u64| u != t implies !(#[trigger] after.threads[u] is Holding) by {
            assert(system.threads[u] == after.threads[u]);
        }
        assert(after.threads[t] is Holding);
        lemma_guards_stay(system, after, t);
        if exists|p: u64| #[trigger] after.threads[p] is Parked {
            let p = choose|p: u64| #[trigger] after.threads[p] is Parked;
            assert(system.threads[p] is Parked);
            if after.word.state != LOCKED_CONTENDED {
                if exists|g: u64| #[trigger] system.threads[g] == (Phase::Waiting { guardian: true }) {
                    let g = choose|g: u64|
                        #[trigger] system.threads[g] == (Phase::Waiting { guardian: true });
                    assert(after.threads[g] == (Phase::Waiting { guardian: true }));
                } else {
                    let r = choose|r: u64| #[trigger] system.threads[r] is Releasing;
                    assert(after.threads[r] is Releasing);
                }
            }
        }
    } else if after != system {
        assert(after.threads == system.threads.insert(t, after.threads[t]));
        lemma_same_holders(system, after, t);
        lemma_guards_stay(system, after, t);
        if exists|p: u64| #[trigger] after.threads[p] is Parked {
            let p = choose|p: u64| #[trigger] after.threads[p] is Parked;
            assert(system.threads[p] is Parked);
            if after.word.state != LOCKED_CONTENDED {
                if exists|g: u64| #[trigger] system.threads[g] == (Phase::Waiting { guardian: true }) {
                    let g = choose|g: u64|
                        #[trigger] system.threads[g] == (Phase::Waiting { guardian: true });
                    assert(after.threads[g] == (Phase::Waiting { guardian: true }));
                } else {
                    let r = choose|r: u64| #[trigger] system.threads[r] is Releasing;
                    assert(after.threads[r] is Releasing);
                }
            }
        }
    }
}

} // verus!
