//! How a lock is taken, waited for and released, and what is recorded of it.

use vstd::prelude::*;

use crate::lock_stats;
use crate::lock_stats::{site_name, LockReport, LockStats, SiteReport, SiteStats};
use crate::mutex::{
    Acquisition, AtomicMutex, AtomicMutexErr, AtomicMutexGuard, LockProgress, LockWaiter, WaitStep,
};

verus! {

/// A lock is taken at once exactly where it is free, and held then. An attempt on a held lock
/// changes nothing, and begins to wait without the mark.
pub proof fn law_a_lock_is_taken_where_it_is_free(
    lock: &mut AtomicMutex,
    site: usize,
    stats: LockStats,
    park: bool,
    now: u64,
    progress: LockProgress,
)
    requires
        call_ensures(AtomicMutex::lock_at, (lock, site, &stats, park, now), progress),
    ensures
        progress is Acquired <==> old(lock).state == 0,
        progress matches LockProgress::Acquired(taken) ==> {
            &&& final(lock).state == 1
            &&& taken.site == site
            &&& taken.started is Some <==> stats.enabled
            &&& taken.started matches Some(started) ==> started == now
        },
        progress matches LockProgress::Contended(waiter) ==> {
            &&& final(lock).state == old(lock).state
            &&& waiter.park == park && waiter.spins == 0 && !waiter.acquire_contended
            &&& waiter.site == site
            &&& waiter.started is Some <==> stats.enabled
            &&& waiter.started matches Some(started) ==> started == now
        },
{
}

/// A lock that is taken on behalf of no site is taken at the first one.
pub proof fn law_a_lock_without_a_site_is_taken_at_the_first(
    lock: &mut AtomicMutex,
    stats: LockStats,
    park: bool,
    now: u64,
    progress: LockProgress,
)
    requires
        call_ensures(AtomicMutex::lock, (lock, &stats, park, now), progress),
    ensures
        progress is Acquired <==> old(lock).state == 0,
        progress matches LockProgress::Acquired(taken) ==> {
            &&& final(lock).state == 1
            &&& taken.site == 0
            &&& taken.started is Some <==> stats.enabled
            &&& taken.started matches Some(started) ==> started == now
        },
        progress matches LockProgress::Contended(waiter) ==> {
            &&& final(lock).state == old(lock).state
            &&& waiter.park == park && waiter.spins == 0 && !waiter.acquire_contended
            &&& waiter.site == 0
            &&& waiter.started is Some <==> stats.enabled
            &&& waiter.started matches Some(started) ==> started == now
        },
{
}

/// A lock that is tried is taken exactly where it is free, and one that is held stays as it is.
pub proof fn law_a_tried_lock_is_taken_or_left(
    lock: &mut AtomicMutex,
    taken: Result<AtomicMutexGuard, AtomicMutexErr>,
)
    requires
        call_ensures(AtomicMutex::try_lock, (lock,), taken),
    ensures
        taken is Ok <==> old(lock).state == 0,
        taken is Ok ==> final(lock).state == 1,
        taken is Err ==> final(lock).state == old(lock).state,
        taken matches Ok(guard) ==> guard.stats is None,
{
}

/// A waiting thread takes the lock as soon as it sees it free, with the mark exactly where it
/// was parked before. Otherwise it counts one more look: it spins for the first, then it
/// yields, and where it may park it marks the lock and parks at the eightieth.
pub proof fn law_a_waiter_spins_then_yields_then_parks(
    lock: &mut AtomicMutex,
    waiter: &mut LockWaiter,
    step: WaitStep,
)
    requires
        call_ensures(AtomicMutex::lock_contended, (lock, waiter), step),
    ensures
        step is Acquired <==> old(lock).state == 0,
        step matches WaitStep::Acquired(taken) ==> {
            &&& final(lock).state == if old(waiter).acquire_contended {
                2u8
            } else {
                1u8
            }
            &&& taken.started == old(waiter).started
            &&& taken.site == old(waiter).site
            &&& *final(waiter) == *old(waiter)
        },
        !(step is Acquired) ==> {
            let looks = (old(waiter).spins + 1) % 0x1_0000_0000;
            &&& final(waiter).spins == looks
            &&& final(waiter).park == old(waiter).park
            &&& final(waiter).acquire_contended == old(waiter).acquire_contended
            &&& final(waiter).started == old(waiter).started
            &&& final(waiter).site == old(waiter).site
            &&& step is SpinLoop <==> looks < 64
            &&& step is Park <==> looks >= 80 && old(waiter).park
            &&& final(lock).state == if step is Park {
                2
            } else {
                old(lock).state
            }
        },
{
    let spins = old(waiter).spins as int;
    if spins < 0xffff_ffff {
        assert((spins + 1) % 0x1_0000_0000 == spins + 1);
    }
}

/// A thread that comes back from parking yields anew before it parks again, and takes the lock
/// with the mark.
pub proof fn law_a_parked_thread_comes_back_as_a_guardian(waiter: &mut LockWaiter)
    requires
        call_ensures(LockWaiter::resumed, (waiter,), ()),
    ensures
        final(waiter).acquire_contended,
        final(waiter).spins == 64,
        final(waiter).park == old(waiter).park,
        final(waiter).started == old(waiter).started,
        final(waiter).site == old(waiter).site,
{
}

/// A thread parks exactly while the mark is on the lock, and a release takes the mark away and
/// wakes a parked thread exactly where it was there. The lock is free then.
pub proof fn law_a_release_wakes_exactly_where_threads_may_park(
    lock: &mut AtomicMutex,
    guard: AtomicMutexGuard,
    stats: &mut LockStats,
    now: u64,
    may_park: bool,
    wake: bool,
)
    requires
        call_ensures(AtomicMutex::may_park, (&*old(lock),), may_park),
        call_ensures(AtomicMutex::unlock, (lock, guard, stats, now), wake),
    ensures
        final(lock).state == 0,
        may_park <==> old(lock).state == 2,
        wake <==> may_park,
        guard.stats is None ==> *final(stats) == *old(stats),
        guard.stats matches Some((since, site)) ==> {
            &&& final(stats).enabled == old(stats).enabled
            &&& final(stats).sites@ == old(stats).sites@.update(
                site as int,
                SiteStats {
                    held_ns: ((old(stats).sites@[site as int].held_ns + if since <= now {
                        now - since
                    } else {
                        0
                    }) % 0x1_0000_0000_0000_0000) as u64,
                    ..old(stats).sites@[site as int]
                },
            )
        },
{
}

/// A tenure that is timed counts at its site, with the time that was waited; one that is not
/// leaves no trace.
pub proof fn law_a_timed_tenure_counts_at_its_site(
    taken: Acquisition,
    stats: &mut LockStats,
    now: u64,
    guard: AtomicMutexGuard,
)
    requires
        call_ensures(Acquisition::begin, (taken, stats, now), guard),
    ensures
        taken.started is None ==> guard.stats is None && *final(stats) == *old(stats),
        taken.started matches Some(started) ==> {
            &&& guard.stats == Some((now, taken.site))
            &&& final(stats).enabled == old(stats).enabled
            &&& final(stats).sites@ == old(stats).sites@.update(
                taken.site as int,
                SiteStats {
                    count: ((old(stats).sites@[taken.site as int].count + 1)
                        % 0x1_0000_0000_0000_0000) as u64,
                    wait_ns: ((old(stats).sites@[taken.site as int].wait_ns + if started <= now {
                        now - started
                    } else {
                        0
                    }) % 0x1_0000_0000_0000_0000) as u64,
                    ..old(stats).sites@[taken.site as int]
                },
            )
        },
{
}

/// What is recorded at a site is added there, and nowhere else.
pub proof fn law_records_add_up_at_their_site(
    stats: &mut LockStats,
    site: usize,
    wait_ns: u64,
    later: &mut LockStats,
    held_ns: u64,
)
    requires
        old(stats).wf(),
        site < 7,
        call_ensures(LockStats::record_acquired, (stats, site, wait_ns), ()),
        *old(later) == *final(stats),
        call_ensures(LockStats::record_released, (later, site, held_ns), ()),
    ensures
        ({
            let before = old(stats).sites@[site as int];
            let after = final(later).sites@[site as int];
            &&& after.count == (before.count + 1) % 0x1_0000_0000_0000_0000
            &&& after.wait_ns == (before.wait_ns + wait_ns) % 0x1_0000_0000_0000_0000
            &&& after.held_ns == (before.held_ns + held_ns) % 0x1_0000_0000_0000_0000
            &&& final(later).sites@ == old(stats).sites@.update(site as int, after)
            &&& final(later).enabled == old(stats).enabled
        }),
{
    assert(final(later).sites@ =~= old(stats).sites@.update(
        site as int,
        final(later).sites@[site as int],
    ));
}

/// Statistics begin with nothing in them and are not kept; once a switch is set they are, and
/// no switch stops that.
pub proof fn law_statistics_are_kept_once_switched_on(
    fresh: LockStats,
    stats: &mut LockStats,
    switch_set: bool,
)
    requires
        call_ensures(LockStats::new, (), fresh),
        call_ensures(LockStats::init_from_env, (stats, switch_set), ()),
    ensures
        !fresh.enabled,
        fresh.sites@.len() == 7,
        forall|i: int|
            0 <= i < 7 ==> (#[trigger] fresh.sites@[i]).count == 0 && fresh.sites@[i].held_ns == 0
                && fresh.sites@[i].wait_ns == 0,
        final(stats).enabled <==> old(stats).enabled || switch_set,
        final(stats).sites == old(stats).sites,
{
}

/// Whether a site took the lock.
pub open spec fn took(sites: Seq<SiteStats>) -> spec_fn(int) -> bool {
    |i: int| sites[i].count > 0
}

/// What is reported of a site: its numbers, and the average tenure.
pub open spec fn shown(sites: Seq<SiteStats>) -> spec_fn(int) -> SiteReport {
    |i: int|
        SiteReport {
            site: i as usize,
            count: sites[i].count,
            held_ns: sites[i].held_ns,
            avg_ns: sites[i].held_ns / sites[i].count,
            wait_ns: sites[i].wait_ns,
        }
}

/// A report holds every site that took the lock, in order, each with its numbers and its
/// average tenure, and the sums over all sites. Everything starts over then.
pub proof fn law_a_report_holds_every_site_that_took_the_lock(
    stats: &mut LockStats,
    report: LockReport,
)
    requires
        old(stats).wf(),
        call_ensures(LockStats::drain_report, (stats,), report),
    ensures
        ({
            let sites = old(stats).sites@;
            &&& sites.len() == 7
            &&& report.sites@ == seq![0int, 1, 2, 3, 4, 5, 6].filter(took(sites)).map_values(
                shown(sites),
            )
            &&& report.total_held_ns == (sites[0].held_ns + sites[1].held_ns + sites[2].held_ns
                + sites[3].held_ns + sites[4].held_ns + sites[5].held_ns + sites[6].held_ns)
                % 0x1_0000_0000_0000_0000
            &&& report.total_wait_ns == (sites[0].wait_ns + sites[1].wait_ns + sites[2].wait_ns
                + sites[3].wait_ns + sites[4].wait_ns + sites[5].wait_ns + sites[6].wait_ns)
                % 0x1_0000_0000_0000_0000
            &&& forall|i: int|
                0 <= i < 7 ==> #[trigger] final(stats).sites@[i] == (SiteStats {
                    count: 0,
                    held_ns: 0,
                    wait_ns: 0,
                })
            &&& final(stats).enabled == old(stats).enabled
        }),
{
    let sites = old(stats).sites@;
    lemma_site_reports(sites, seq![0int, 1, 2, 3, 4, 5, 6]);
    assert(lock_stats::total_held(sites, 7) == sites[0].held_ns + sites[1].held_ns
        + sites[2].held_ns + sites[3].held_ns + sites[4].held_ns + sites[5].held_ns
        + sites[6].held_ns) by {
        reveal_with_fuel(lock_stats::total_held, 8);
    }
    assert(lock_stats::total_wait(sites, 7) == sites[0].wait_ns + sites[1].wait_ns
        + sites[2].wait_ns + sites[3].wait_ns + sites[4].wait_ns + sites[5].wait_ns
        + sites[6].wait_ns) by {
        reveal_with_fuel(lock_stats::total_wait, 8);
    }
}

/// The reports of sites are those of the sites that took the lock.
proof fn lemma_site_reports(sites: Seq<SiteStats>, all: Seq<int>)
    requires
        forall|i: int| 0 <= i < all.len() ==> #[trigger] all[i] == i,
    ensures
        lock_stats::site_reports(sites, all.len() as int) == all.filter(took(sites)).map_values(
            shown(sites),
        ),
    decreases all.len(),
{
    reveal(Seq::filter);
    if all.len() > 0 {
        let shorter = all.drop_last();
        let n = shorter.len() as int;
        lemma_site_reports(sites, shorter);
        assert(all.last() == n);
        let before = shorter.filter(took(sites));
        if sites[n].count > 0 {
            assert(before.push(n).map_values(shown(sites)) =~= before.map_values(
                shown(sites),
            ).push(shown(sites)(n)));
        }
    } else {
        assert(all.filter(took(sites)).map_values(shown(sites)) =~= Seq::empty());
    }
}

/// Sites are reported under their names.
pub proof fn law_sites_have_their_names(site: usize, name: &'static str)
    requires
        site < 7,
        call_ensures(site_name, (site,), name),
    ensures
        name@ == seq![
            "other"@,
            "input"@,
            "timer"@,
            "read"@,
            "write"@,
            "flush"@,
            "retry"@,
        ][site as int],
{
}

/// A new lock is free, and the error of a held one says so.
pub proof fn law_a_new_lock_is_free(
    lock: AtomicMutex,
    default: AtomicMutex,
    stats: LockStats,
    error: AtomicMutexErr,
    message: String,
)
    requires
        call_ensures(<AtomicMutex as Default>::default, (), default),
        call_ensures(<LockStats as Default>::default, (), stats),
        call_ensures(AtomicMutex::new, (), lock),
        call_ensures(AtomicMutexErr::message, (&error,), message),
    ensures
        lock.state == 0,
        default.state == 0,
        !stats.enabled,
        stats.sites@.len() == 7,
        forall|i: int|
            0 <= i < 7 ==> #[trigger] stats.sites@[i] == (SiteStats {
                count: 0,
                held_ns: 0,
                wait_ns: 0,
            }),
        message@ == "Mutex is already locked"@,
{
}

} // verus!
