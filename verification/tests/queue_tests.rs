use worksteal::config::{Config, QueueDiscipline, SchedulerError};
use worksteal::global_queue::GlobalQueue;
use worksteal::local_queue::LocalQueue;
use worksteal::task::Task;
use worksteal::worker::WorkerPhase::{Draining, Executing, Seeking, Stopped};
use worksteal::worker::{next_phase, simulate_cost};

#[test]
fn global_queue_is_fifo() {
    let mut q = GlobalQueue::new(None);
    assert!(q.is_empty());
    q.push(Task::new(1, 10)).unwrap();
    q.push(Task::new(2, 20)).unwrap();
    q.push(Task::new(3, 30)).unwrap();
    assert_eq!(q.len(), 3);
    assert_eq!(q.try_pop(), Some(Task::new(1, 10)));
    assert_eq!(q.try_pop(), Some(Task::new(2, 20)));
    assert_eq!(q.try_pop(), Some(Task::new(3, 30)));
    assert_eq!(q.try_pop(), None);
}

#[test]
fn global_queue_bound_refuses_and_keeps_contents() {
    let mut q = GlobalQueue::new(Some(1));
    assert!(q.push(Task::new(1, 1)).is_ok());
    assert_eq!(q.push(Task::new(2, 1)), Err(SchedulerError::QueueFull));
    assert_eq!(q.len(), 1);
    assert_eq!(q.try_pop(), Some(Task::new(1, 1)));
    assert!(q.push(Task::new(2, 1)).is_ok());
}

#[test]
fn lifo_local_queue_pops_newest_and_is_stolen_oldest() {
    let mut q = LocalQueue::new(QueueDiscipline::Lifo);
    q.push_owner(Task::new(1, 1));
    q.push_owner(Task::new(2, 1));
    q.push_owner(Task::new(3, 1));
    assert_eq!(q.pop_owner(), Some(Task::new(3, 1)));
    assert_eq!(q.try_steal(), Some(Task::new(1, 1)));
    assert_eq!(q.pop_owner(), Some(Task::new(2, 1)));
    assert_eq!(q.pop_owner(), None);
    assert_eq!(q.try_steal(), None);
}

#[test]
fn fifo_local_queue_pops_oldest_at_both_ends() {
    let mut q = LocalQueue::new(QueueDiscipline::Fifo);
    q.push_owner(Task::new(1, 1));
    q.push_owner(Task::new(2, 1));
    q.push_owner(Task::new(3, 1));
    assert_eq!(q.pop_owner(), Some(Task::new(1, 1)));
    assert_eq!(q.try_steal(), Some(Task::new(2, 1)));
    assert_eq!(q.len(), 1);
    assert!(!q.is_empty());
    assert_eq!(q.pop_owner(), Some(Task::new(3, 1)));
    assert!(q.is_empty());
}

#[test]
fn phase_decisions_follow_the_state_machine() {
    assert_eq!(next_phase(Seeking, true, false), (Executing, false));
    assert_eq!(next_phase(Seeking, true, true), (Executing, false));
    assert_eq!(next_phase(Seeking, false, false), (Seeking, true));
    assert_eq!(next_phase(Seeking, false, true), (Draining, false));
    assert_eq!(next_phase(Executing, false, false), (Seeking, false));
    assert_eq!(next_phase(Draining, true, true), (Draining, false));
    assert_eq!(next_phase(Draining, false, true), (Stopped, false));
    assert_eq!(next_phase(Stopped, false, true), (Stopped, false));
}

#[test]
fn cost_bounds_simulated_work() {
    assert_eq!(simulate_cost(0), 0);
    assert_eq!(simulate_cost(7), 7);
}

#[test]
fn standard_configuration_values() {
    let c = Config::standard();
    assert_eq!(c.backoff_micros, 100);
    assert_eq!(c.discipline, QueueDiscipline::Fifo);
    assert_eq!(c.global_bound, None);
    assert_eq!(Config::default(), c);
}

#[test]
fn error_messages_name_the_failure() {
    assert_eq!(
        SchedulerError::ConfigurationError.message(),
        "worker count must be positive"
    );
    assert_eq!(
        SchedulerError::QueueFull.message(),
        "global queue is at its configured bound"
    );
}

#[test]
fn task_carries_payload_and_cost() {
    let t = Task::new(42, 9);
    assert_eq!(t.payload, 42);
    assert_eq!(t.cost, 9);
    assert_eq!(t, Task { payload: 42, cost: 9 });
}
