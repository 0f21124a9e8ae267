use lwip::lock_stats::{
    site_name, LockStats, SITE_FLUSH, SITE_INPUT, SITE_OTHER, SITE_READ, SITE_RETRY, SITE_TIMER,
    SITE_WRITE,
};
use lwip::mutex::{
    init_park_from_env, AtomicMutex, AtomicMutexGuard, LockProgress, LockWaiter, WaitStep, LOCKED,
    LOCKED_CONTENDED, UNLOCKED,
};
use lwip::text::RawSetting;

fn acquire(mutex: &mut AtomicMutex, stats: &mut LockStats, site: usize, now: u64) -> AtomicMutexGuard {
    match mutex.lock_at(site, stats, true, now) {
        LockProgress::Acquired(taken) => taken.begin(stats, now),
        LockProgress::Contended(_) => panic!("the lock is held"),
    }
}

fn wait(mutex: &mut AtomicMutex, stats: &LockStats, park: bool) -> LockWaiter {
    match mutex.lock(stats, park, 0) {
        LockProgress::Acquired(_) => panic!("the lock is free"),
        LockProgress::Contended(waiter) => waiter,
    }
}

#[test]
fn a_lock_is_held_by_one_at_a_time() {
    let mut mutex = AtomicMutex::new();
    let mut stats = LockStats::new();
    assert_eq!(mutex, AtomicMutex::default());
    let guard = mutex.try_lock().unwrap();
    assert_eq!(mutex.state, LOCKED);
    let error = mutex.try_lock().unwrap_err();
    assert_eq!(error.message(), "Mutex is already locked");
    assert!(!mutex.unlock(guard, &mut stats, 0));
    assert_eq!(mutex.state, UNLOCKED);
    assert!(mutex.try_lock().is_ok());
}

#[test]
fn a_waiter_spins_then_yields_then_parks() {
    let mut mutex = AtomicMutex::new();
    let mut stats = LockStats::new();
    let guard = acquire(&mut mutex, &mut stats, SITE_OTHER, 0);
    let mut waiter = wait(&mut mutex, &stats, true);
    let mut spins = 0;
    let mut yields = 0;
    loop {
        match mutex.lock_contended(&mut waiter) {
            WaitStep::SpinLoop => spins += 1,
            WaitStep::YieldNow => yields += 1,
            WaitStep::Park => break,
            WaitStep::Acquired(_) => panic!("the lock is held"),
        }
    }
    assert_eq!((spins, yields), (63, 16));
    assert_eq!(mutex.state, LOCKED_CONTENDED);
    assert!(mutex.may_park());

    assert!(mutex.unlock(guard, &mut stats, 0), "the parked thread is woken");
    assert!(!mutex.may_park());
    waiter.resumed();
    let step = mutex.lock_contended(&mut waiter);
    let guard = match step {
        WaitStep::Acquired(taken) => taken.begin(&mut stats, 0),
        other => panic!("unexpected {other:?}"),
    };
    assert_eq!(mutex.state, LOCKED_CONTENDED, "a woken thread keeps the mark");
    assert!(mutex.unlock(guard, &mut stats, 0));
}

#[test]
fn a_woken_waiter_gets_a_fresh_budget_of_yields() {
    let mut mutex = AtomicMutex { state: LOCKED };
    let mut stats = LockStats::new();
    let mut waiter = wait(&mut mutex, &stats, true);
    waiter.resumed();
    let mut yields = 0;
    while let WaitStep::YieldNow = mutex.lock_contended(&mut waiter) {
        yields += 1;
    }
    assert_eq!(yields, 15);
}

#[test]
fn without_parking_a_waiter_yields_on() {
    let mut mutex = AtomicMutex { state: LOCKED };
    let mut stats = LockStats::new();
    let mut waiter = wait(&mut mutex, &stats, false);
    for look in 0..1000 {
        let step = mutex.lock_contended(&mut waiter);
        if look < 63 {
            assert!(matches!(step, WaitStep::SpinLoop));
        } else {
            assert!(matches!(step, WaitStep::YieldNow));
        }
    }
    assert_eq!(mutex.state, LOCKED);
}

#[test]
fn the_switch_for_parking_is_strict() {
    assert_eq!(init_park_from_env(true, RawSetting::Unset), Ok(None));
    assert_eq!(init_park_from_env(true, RawSetting::Text("1")), Ok(Some(true)));
    assert_eq!(init_park_from_env(true, RawSetting::Text("0")), Ok(Some(false)));
    assert_eq!(init_park_from_env(false, RawSetting::Text("0")), Ok(Some(false)));
    assert_eq!(
        init_park_from_env(false, RawSetting::Text("1")).unwrap_err(),
        "PANDA_LWIP_LOCK_PARK=1 is not supported on mobile packet tunnels"
    );
    assert_eq!(
        init_park_from_env(true, RawSetting::Text("a\"b")).unwrap_err(),
        "PANDA_LWIP_LOCK_PARK must be \"0\" or \"1\", got Some(\"a\\\"b\")"
    );
    assert_eq!(
        init_park_from_env(true, RawSetting::NotUnicode).unwrap_err(),
        "PANDA_LWIP_LOCK_PARK must be \"0\" or \"1\", got None"
    );
}

#[test]
fn statistics_add_up_by_site_and_start_over() {
    let mut mutex = AtomicMutex::new();
    let mut stats = LockStats::default();
    stats.init_from_env(false);
    let guard = acquire(&mut mutex, &mut stats, 99, 5);
    assert!(!mutex.unlock(guard, &mut stats, 6));
    stats.init_from_env(true);

    let guard = acquire(&mut mutex, &mut stats, SITE_READ, 100);
    let mut waiter = match mutex.lock_at(SITE_WRITE, &stats, true, 110) {
        LockProgress::Contended(waiter) => waiter,
        LockProgress::Acquired(_) => panic!("the lock is held"),
    };
    mutex.unlock(guard, &mut stats, 130);
    let guard = match mutex.lock_contended(&mut waiter) {
        WaitStep::Acquired(taken) => taken.begin(&mut stats, 150),
        other => panic!("unexpected {other:?}"),
    };
    mutex.unlock(guard, &mut stats, 140);
    let guard = acquire(&mut mutex, &mut stats, SITE_READ, 200);
    mutex.unlock(guard, &mut stats, 245);

    let report = stats.drain_report();
    assert_eq!(report.total_held_ns, 75);
    assert_eq!(report.total_wait_ns, 40);
    assert_eq!(report.sites.len(), 2);
    let read = report.sites[0];
    assert_eq!((read.site, read.count, read.held_ns, read.avg_ns, read.wait_ns), (3, 2, 75, 37, 0));
    let write = report.sites[1];
    assert_eq!((write.site, write.count, write.held_ns, write.wait_ns), (4, 1, 0, 40));
    assert!(stats.drain_report().sites.is_empty());
}

#[test]
fn a_tenure_begins_when_the_lock_is_held() {
    let mut mutex = AtomicMutex::new();
    let mut stats = LockStats::new();
    stats.init_from_env(true);
    let taken = match mutex.lock_at(SITE_INPUT, &stats, true, 1000) {
        LockProgress::Acquired(taken) => taken,
        LockProgress::Contended(_) => panic!("the lock is free"),
    };
    let guard = taken.begin(&mut stats, 1007);
    assert_eq!(guard.stats, Some((1007, SITE_INPUT)));
    mutex.unlock(guard, &mut stats, 1010);
    let report = stats.drain_report();
    assert_eq!((report.total_wait_ns, report.total_held_ns), (7, 3));
}

#[test]
fn a_held_lock_blocks_no_other() {
    let mut locks = [AtomicMutex::new(), AtomicMutex::new()];
    let stats = LockStats::new();
    assert!(matches!(locks[0].lock(&stats, true, 0), LockProgress::Acquired(_)));
    let mut waiter = wait(&mut locks[0], &stats, true);
    while !matches!(locks[0].lock_contended(&mut waiter), WaitStep::Park) {}
    assert_eq!(locks[1].state, UNLOCKED);
    assert!(matches!(locks[1].lock(&stats, true, 0), LockProgress::Acquired(_)));
    assert_eq!((locks[0].state, locks[1].state), (LOCKED_CONTENDED, LOCKED));
}

#[test]
fn sites_have_names() {
    let names: Vec<&str> = [
        SITE_OTHER, SITE_INPUT, SITE_TIMER, SITE_READ, SITE_WRITE, SITE_FLUSH, SITE_RETRY,
    ]
    .into_iter()
    .map(site_name)
    .collect();
    assert_eq!(names, ["other", "input", "timer", "read", "write", "flush", "retry"]);
}
