use worksteal::config::QueueDiscipline;
use worksteal::stealing::{
    build_pool, seek_pass, GlobalInjector, PassCounters, PassOutcome, StealHandle, WorkerDeque,
};
use worksteal::task::Task;

fn pool_of(n: usize) -> (GlobalInjector, Vec<WorkerDeque>, Vec<StealHandle>) {
    build_pool(n, QueueDiscipline::Fifo)
}

#[test]
fn pass_prefers_the_own_deque() {
    let (injector, deques, handles) = pool_of(2);
    injector.push(Task::new(50, 1));
    deques[0].push(Task::new(1, 5));
    let mut counters = PassCounters::new();
    let r = seek_pass(&deques[0], &injector, &handles, 0, true, &mut counters);
    assert_eq!(r, PassOutcome::RanLocal(Task::new(1, 5)));
    assert_eq!(counters, PassCounters { processed: 1, stolen: 0 });
}

#[test]
fn pass_falls_back_to_the_injector() {
    let (injector, deques, handles) = pool_of(2);
    injector.push(Task::new(7, 3));
    let mut counters = PassCounters::new();
    let r = seek_pass(&deques[0], &injector, &handles, 0, true, &mut counters);
    assert_eq!(r, PassOutcome::RanGlobal(Task::new(7, 3)));
    assert_eq!(counters.processed, 1);
    assert_eq!(counters.stolen, 0);
}

#[test]
fn pass_steals_from_a_loaded_peer() {
    let (injector, deques, handles) = pool_of(3);
    deques[2].push(Task::new(9, 2));
    let mut counters = PassCounters::new();
    let r = seek_pass(&deques[0], &injector, &handles, 0, true, &mut counters);
    assert_eq!(r, PassOutcome::RanStolen(Task::new(9, 2)));
    assert_eq!(counters, PassCounters { processed: 1, stolen: 1 });
}

#[test]
fn draining_pass_leaves_peers_alone() {
    let (injector, deques, handles) = pool_of(2);
    deques[1].push(Task::new(4, 1));
    let mut counters = PassCounters::new();
    let r = seek_pass(&deques[0], &injector, &handles, 0, false, &mut counters);
    assert_eq!(r, PassOutcome::Idle);
    assert_eq!(counters, PassCounters::new());
    // The task is still in the peer's deque: its owner can take it.
    let mut peer_counters = PassCounters::new();
    let r2 = seek_pass(&deques[1], &injector, &handles, 1, false, &mut peer_counters);
    assert_eq!(r2, PassOutcome::RanLocal(Task::new(4, 1)));
}

#[test]
fn empty_pool_is_idle() {
    let (injector, deques, handles) = pool_of(2);
    let mut counters = PassCounters::new();
    let r = seek_pass(&deques[0], &injector, &handles, 0, true, &mut counters);
    assert_eq!(r, PassOutcome::Idle);
    assert_eq!(counters, PassCounters::new());
}

#[test]
fn a_task_is_taken_exactly_once() {
    let (injector, deques, handles) = pool_of(2);
    injector.push(Task::new(11, 1));
    let mut c0 = PassCounters::new();
    let mut c1 = PassCounters::new();
    let r0 = seek_pass(&deques[0], &injector, &handles, 0, true, &mut c0);
    let r1 = seek_pass(&deques[1], &injector, &handles, 1, true, &mut c1);
    assert_eq!(r0, PassOutcome::RanGlobal(Task::new(11, 1)));
    assert_eq!(r1, PassOutcome::Idle);
    assert_eq!(c0.processed + c1.processed, 1);
}

#[test]
fn counters_saturate_instead_of_wrapping() {
    let mut counters = PassCounters { processed: u64::MAX, stolen: u64::MAX - 1 };
    counters.record_run(true);
    assert_eq!(counters.processed, u64::MAX);
    assert_eq!(counters.stolen, u64::MAX);
    counters.record_run(true);
    assert_eq!(counters.stolen, u64::MAX);
}

#[test]
fn lifo_deque_serves_newest_first_to_its_owner() {
    let injector = GlobalInjector::new();
    let d = WorkerDeque::new(QueueDiscipline::Lifo);
    let handles = vec![d.stealer()];
    d.push(Task::new(1, 1));
    d.push(Task::new(2, 1));
    let mut counters = PassCounters::new();
    let r = seek_pass(&d, &injector, &handles, 0, true, &mut counters);
    assert_eq!(r, PassOutcome::RanLocal(Task::new(2, 1)));
}
