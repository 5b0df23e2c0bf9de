use worksteal::config::{Config, QueueDiscipline, SchedulerError};
use worksteal::scheduler::{Scheduler, StepResult, Totals};
use worksteal::task::Task;

fn standard() -> Config {
    Config::standard()
}

#[test]
fn zero_workers_is_a_configuration_error() {
    let r = Scheduler::new(0, standard());
    assert!(matches!(r, Err(SchedulerError::ConfigurationError)));
}

#[test]
fn exact_once_delivery_after_drain() {
    let mut sched = Scheduler::new(3, standard()).unwrap();
    for i in 0..50 {
        sched.submit(Task::new(i, i % 7)).unwrap();
    }
    sched.shutdown();
    let totals = sched.join();
    assert_eq!(totals.total_processed, 50);
    let mut processed_sum = 0u64;
    for w in 0..sched.worker_count() {
        processed_sum += sched.worker_counters(w).0;
    }
    assert_eq!(processed_sum, 50);
}

#[test]
fn no_task_loss_under_shutdown_race() {
    let mut sched = Scheduler::new(4, standard()).unwrap();
    for i in 0..37 {
        sched.submit(Task::new(i, 1)).unwrap();
    }
    sched.shutdown();
    let totals = sched.join();
    // Nothing was reported dropped (the queue is unbounded), so the
    // processed count alone accounts for every submission.
    assert_eq!(totals.total_processed, 37);
}

#[test]
fn draining_empties_every_queue() {
    let mut sched = Scheduler::new(3, standard()).unwrap();
    for i in 0..10 {
        sched.submit(Task::new(i, 2)).unwrap();
    }
    for i in 0..5 {
        sched.submit_to_worker(1, Task::new(100 + i, 1));
    }
    sched.shutdown();
    let totals = sched.join();
    assert_eq!(totals.total_processed, 15);
    assert_eq!(sched.global_len(), 0);
    for w in 0..sched.worker_count() {
        assert_eq!(sched.local_len(w), 0);
    }
}

#[test]
fn starved_peers_steal_from_a_loaded_worker() {
    let mut sched = Scheduler::new(4, standard()).unwrap();
    for i in 0..200 {
        sched.submit_to_worker(0, Task::new(i, 1));
    }
    sched.shutdown();
    let totals = sched.join();
    assert_eq!(totals.total_processed, 200);
    let mut stolen_by_peers = 0u64;
    for w in 1..sched.worker_count() {
        stolen_by_peers += sched.worker_counters(w).1;
    }
    assert!(stolen_by_peers > 0);
    assert_eq!(totals.total_stolen, stolen_by_peers);
}

#[test]
fn shutdown_is_idempotent() {
    let mut sched = Scheduler::new(2, standard()).unwrap();
    sched.submit(Task::new(1, 1)).unwrap();
    sched.shutdown();
    let stopping_once = sched.is_stopping();
    let global_once = sched.global_len();
    sched.shutdown();
    sched.shutdown();
    assert_eq!(sched.is_stopping(), stopping_once);
    assert_eq!(sched.global_len(), global_once);
    let totals = sched.join();
    assert_eq!(totals.total_processed, 1);
}

#[test]
fn hundred_tasks_on_four_workers() {
    let mut sched = Scheduler::new(4, standard()).unwrap();
    for i in 0..100 {
        sched.submit(Task::new(i, i % 10 + 1)).unwrap();
    }
    sched.shutdown();
    let totals = sched.join();
    assert_eq!(totals.total_processed, 100);
    assert!(totals.total_stolen <= totals.total_processed);
    assert_eq!(
        totals,
        Totals { total_processed: 100, total_stolen: totals.total_stolen }
    );
}

#[test]
fn bounded_global_queue_refuses_when_full() {
    let config = Config {
        backoff_micros: 100,
        discipline: QueueDiscipline::Fifo,
        global_bound: Some(2),
    };
    let mut sched = Scheduler::new(1, config).unwrap();
    assert!(sched.submit(Task::new(1, 1)).is_ok());
    assert!(sched.submit(Task::new(2, 1)).is_ok());
    let r = sched.submit(Task::new(3, 1));
    assert!(matches!(r, Err(SchedulerError::QueueFull)));
    assert_eq!(sched.global_len(), 2);
    sched.shutdown();
    let totals = sched.join();
    assert_eq!(totals.total_processed, 2);
}

#[test]
fn submissions_after_shutdown_are_accepted() {
    let mut sched = Scheduler::new(2, standard()).unwrap();
    sched.shutdown();
    assert!(sched.submit(Task::new(9, 3)).is_ok());
    let totals = sched.join();
    assert_eq!(totals.total_processed, 1);
}

#[test]
fn step_walks_the_worker_state_machine() {
    let mut sched = Scheduler::new(2, standard()).unwrap();
    sched.submit(Task::new(7, 4)).unwrap();
    assert_eq!(sched.step_worker(0), StepResult::Executed { stolen: false });
    assert_eq!(sched.worker_counters(0), (1, 0));
    // Nothing left and still running: the worker backs off.
    assert_eq!(sched.step_worker(0), StepResult::Backoff);
    sched.shutdown();
    // Nothing left and stopping: seeking moves to draining, draining to
    // stopped, and a stopped worker stays idle.
    assert_eq!(sched.step_worker(0), StepResult::Advanced);
    assert_eq!(sched.step_worker(0), StepResult::Advanced);
    assert_eq!(sched.step_worker(0), StepResult::Idle);
    let totals = sched.join();
    assert_eq!(totals.total_processed, 1);
}

#[test]
fn stepping_steals_from_the_loaded_peer() {
    let mut sched = Scheduler::new(3, standard()).unwrap();
    sched.submit_to_worker(2, Task::new(1, 1));
    sched.submit_to_worker(2, Task::new(2, 1));
    // Worker 0 has nothing of its own and the global queue is empty, so
    // it steals from the first loaded peer.
    assert_eq!(sched.step_worker(0), StepResult::Executed { stolen: true });
    assert_eq!(sched.worker_counters(0), (1, 1));
    assert_eq!(sched.local_len(2), 1);
    sched.shutdown();
    let totals = sched.join();
    assert_eq!(totals.total_processed, 2);
    // During the drain, worker 0 seeks before worker 2 and steals the
    // remaining task as well.
    assert_eq!(totals.total_stolen, 2);
}

#[test]
fn join_totals_match_per_worker_counters() {
    let mut sched = Scheduler::new(4, standard()).unwrap();
    for i in 0..60 {
        sched.submit(Task::new(i, 1)).unwrap();
    }
    for i in 0..20 {
        sched.submit_to_worker(3, Task::new(1000 + i, 2));
    }
    sched.shutdown();
    let totals = sched.join();
    let mut processed = 0u64;
    let mut stolen = 0u64;
    for w in 0..sched.worker_count() {
        let (p, s) = sched.worker_counters(w);
        processed += p;
        stolen += s;
    }
    assert_eq!(totals.total_processed, processed);
    assert_eq!(totals.total_stolen, stolen);
    assert_eq!(processed, 80);
}
