//! Lock diagnostics: how long a lock was held and waited for, by the site that
//! took it.

use vstd::prelude::*;

use crate::counter;

verus! {

pub const SITE_OTHER: usize = 0;

pub const SITE_INPUT: usize = 1;

pub const SITE_TIMER: usize = 2;

pub const SITE_READ: usize = 3;

pub const SITE_WRITE: usize = 4;

pub const SITE_FLUSH: usize = 5;

pub const SITE_RETRY: usize = 6;

/// How many sites there are.
pub const NSITES: usize = 7;

/// The name under which a site is reported.
pub fn site_name(site: usize) -> (name: &'static str)
    requires
        site < NSITES,
    ensures
        site == SITE_OTHER ==> name@ == "other"@,
        site == SITE_INPUT ==> name@ == "input"@,
        site == SITE_TIMER ==> name@ == "timer"@,
        site == SITE_READ ==> name@ == "read"@,
        site == SITE_WRITE ==> name@ == "write"@,
        site == SITE_FLUSH ==> name@ == "flush"@,
        site == SITE_RETRY ==> name@ == "retry"@,
{
    if site == SITE_OTHER {
        "other"
    } else if site == SITE_INPUT {
        "input"
    } else if site == SITE_TIMER {
        "timer"
    } else if site == SITE_READ {
        "read"
    } else if site == SITE_WRITE {
        "write"
    } else if site == SITE_FLUSH {
        "flush"
    } else {
        "retry"
    }
}

/// The statistics of one site, in nanoseconds. The numbers wrap around.
#[derive(Clone, Copy, Debug, PartialEq, Eq, Structural)]
pub struct SiteStats {
    pub count: u64,
    pub held_ns: u64,
    pub wait_ns: u64,
}

/// Adds to a wrapping 64-bit counter.
fn add64(a: u64, b: u64) -> (sum: u64)
    ensures
        sum == counter::wrapped64(a + b),
{
    a.wrapping_add(b)
}

impl SiteStats {
    /// No tenures.
    pub open spec fn zero() -> Self {
        SiteStats { count: 0, held_ns: 0, wait_ns: 0 }
    }

    /// These numbers after one more acquisition that waited `wait_ns`.
    pub open spec fn acquired(self, wait_ns: u64) -> Self {
        SiteStats {
            count: counter::wrapped64(self.count + 1) as u64,
            wait_ns: counter::wrapped64(self.wait_ns + wait_ns) as u64,
            ..self
        }
    }

    /// These numbers after a tenure of `held_ns` ended.
    pub open spec fn released(self, held_ns: u64) -> Self {
        SiteStats { held_ns: counter::wrapped64(self.held_ns + held_ns) as u64, ..self }
    }
}

/// What one site did since the last report.
#[derive(Clone, Copy, Debug, PartialEq, Eq, Structural)]
pub struct SiteReport {
    pub site: usize,
    pub count: u64,
    pub held_ns: u64,
    /// The average tenure.
    pub avg_ns: u64,
    pub wait_ns: u64,
}

/// What all sites did since the last report; sites that took no lock are left
/// out.
#[derive(Debug)]
pub struct LockReport {
    pub total_held_ns: u64,
    pub total_wait_ns: u64,
    pub sites: Vec<SiteReport>,
}

/// The report of one site.
pub open spec fn site_report(site: int, stats: SiteStats) -> SiteReport {
    SiteReport {
        site: site as usize,
        count: stats.count,
        held_ns: stats.held_ns,
        avg_ns: (stats.held_ns / stats.count) as u64,
        wait_ns: stats.wait_ns,
    }
}

/// The reports of the first `n` sites that took the lock, in order.
pub open spec fn site_reports(sites: Seq<SiteStats>, n: int) -> Seq<SiteReport>
    decreases n,
{
    if n <= 0 {
        Seq::empty()
    } else if sites[n - 1].count == 0 {
        site_reports(sites, n - 1)
    } else {
        site_reports(sites, n - 1).push(site_report(n - 1, sites[n - 1]))
    }
}

/// The time that the first `n` sites held the lock.
pub open spec fn total_held(sites: Seq<SiteStats>, n: int) -> int
    decreases n,
{
    if n <= 0 {
        0
    } else {
        total_held(sites, n - 1) + sites[n - 1].held_ns
    }
}

/// The time that the first `n` sites waited for the lock.
pub open spec fn total_wait(sites: Seq<SiteStats>, n: int) -> int
    decreases n,
{
    if n <= 0 {
        0
    } else {
        total_wait(sites, n - 1) + sites[n - 1].wait_ns
    }
}

/// The statistics of all sites, and whether they are kept.
#[derive(Debug)]
pub struct LockStats {
    pub enabled: bool,
    pub sites: Vec<SiteStats>,
}

impl LockStats {
    /// There is an entry for each site.
    pub open spec fn wf(&self) -> bool {
        self.sites@.len() == NSITES
    }

    /// Statistics that are not kept, with nothing in them.
    pub fn new() -> (stats: Self)
        ensures
            stats.wf(),
            !stats.enabled,
            forall|i: int| 0 <= i < NSITES ==> #[trigger] stats.sites@[i] == SiteStats::zero(),
    {
        let mut sites: Vec<SiteStats> = Vec::new();
        let mut i: usize = 0;
        while i < NSITES
            invariant
                i <= NSITES,
                sites@.len() == i,
                forall|k: int| 0 <= k < i ==> #[trigger] sites@[k] == SiteStats::zero(),
            decreases NSITES - i,
        {
            sites.push(SiteStats { count: 0, held_ns: 0, wait_ns: 0 });
            i = i + 1;
        }
        LockStats { enabled: false, sites }
    }

    /// Starts keeping statistics where the switch is set in the environment.
    pub fn init_from_env(&mut self, switch_set: bool)
        ensures
            final(self).sites == old(self).sites,
            final(self).enabled == (old(self).enabled || switch_set),
    {
        if switch_set {
            self.enabled = true;
        }
    }

    /// Records an acquisition at `site` that waited `wait_ns`.
    pub fn record_acquired(&mut self, site: usize, wait_ns: u64)
        requires
            old(self).wf(),
            site < NSITES,
        ensures
            final(self).wf(),
            final(self).enabled == old(self).enabled,
            final(self).sites@ == old(self).sites@.update(
                site as int,
                old(self).sites@[site as int].acquired(wait_ns),
            ),
    {
        let mut entry = self.sites[site];
        entry.count = add64(entry.count, 1);
        entry.wait_ns = add64(entry.wait_ns, wait_ns);
        self.sites.set(site, entry);
    }

    /// Records the end of a tenure of `held_ns` that was taken at `site`.
    pub fn record_released(&mut self, site: usize, held_ns: u64)
        requires
            old(self).wf(),
            site < NSITES,
        ensures
            final(self).wf(),
            final(self).enabled == old(self).enabled,
            final(self).sites@ == old(self).sites@.update(
                site as int,
                old(self).sites@[site as int].released(held_ns),
            ),
    {
        let mut entry = self.sites[site];
        entry.held_ns = add64(entry.held_ns, held_ns);
        self.sites.set(site, entry);
    }

    /// Reports what happened since the previous report, and starts over.
    pub fn drain_report(&mut self) -> (report: LockReport)
        requires
            old(self).wf(),
        ensures
            final(self).wf(),
            final(self).enabled == old(self).enabled,
            forall|i: int| 0 <= i < NSITES ==> #[trigger] final(self).sites@[i]
                == SiteStats::zero(),
            report.sites@ == site_reports(old(self).sites@, NSITES as int),
            report.total_held_ns == counter::wrapped64(total_held(old(self).sites@, NSITES as int)),
            report.total_wait_ns == counter::wrapped64(total_wait(old(self).sites@, NSITES as int)),
    {
        let ghost before = self.sites@;
        let mut reports: Vec<SiteReport> = Vec::new();
        let mut held: u64 = 0;
        let mut wait: u64 = 0;
        let mut i: usize = 0;
        while i < NSITES
            invariant
                i <= NSITES,
                self.wf(),
                self.enabled == old(self).enabled,
                before.len() == NSITES,
                forall|k: int| i <= k < NSITES ==> #[trigger] self.sites@[k] == before[k],
                forall|k: int| 0 <= k < i ==> #[trigger] self.sites@[k] == SiteStats::zero(),
                reports@ == site_reports(before, i as int),
                held == counter::wrapped64(total_held(before, i as int)),
                wait == counter::wrapped64(total_wait(before, i as int)),
            decreases NSITES - i,
        {
            let entry = self.sites[i];
            self.sites.set(i, SiteStats { count: 0, held_ns: 0, wait_ns: 0 });
            held = add64(held, entry.held_ns);
            wait = add64(wait, entry.wait_ns);
            if entry.count != 0 {
                reports.push(
                    SiteReport {
                        site: i,
                        count: entry.count,
                        held_ns: entry.held_ns,
                        avg_ns: entry.held_ns / entry.count,
                        wait_ns: entry.wait_ns,
                    },
                );
            }
            i = i + 1;
        }
        LockReport { total_held_ns: held, total_wait_ns: wait, sites: reports }
    }
}

impl Default for LockStats {
    fn default() -> (stats: Self)
        ensures
            stats.wf(),
            !stats.enabled,
            forall|i: int| 0 <= i < NSITES ==> #[trigger] stats.sites@[i] == SiteStats::zero(),
    {
        LockStats::new()
    }
}

} // verus!
