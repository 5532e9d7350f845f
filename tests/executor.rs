use std::sync::atomic::{AtomicUsize, Ordering};
use std::sync::Arc;
use threadshare::{ExecutorMode, SpawnQueue};

#[test]
fn negative_thread_count_is_cooperative() {
    assert_eq!(ExecutorMode::for_thread_count(-1), ExecutorMode::Cooperative);
    assert_eq!(ExecutorMode::for_thread_count(isize::MIN), ExecutorMode::Cooperative);
}

#[test]
fn zero_thread_count_lets_the_pool_choose() {
    assert_eq!(ExecutorMode::for_thread_count(0), ExecutorMode::Pooled { workers: None });
}

#[test]
fn positive_thread_count_sizes_the_pool() {
    assert_eq!(ExecutorMode::for_thread_count(2), ExecutorMode::Pooled { workers: Some(2) });
}

#[test]
fn queue_hands_out_every_task_once() {
    let mut queue: SpawnQueue<u8> = SpawnQueue::new();
    queue.push(1);
    queue.push(2);
    queue.push(3);
    assert_eq!(queue.take_all(), vec![1, 2, 3]);
    assert_eq!(queue.take_all(), Vec::<u8>::new());
}

#[test]
fn queued_tasks_all_run() {
    let counter = Arc::new(AtomicUsize::new(0));
    let mut queue: SpawnQueue<Box<dyn FnOnce() + Send>> = SpawnQueue::new();
    for _ in 0..3 {
        let c = counter.clone();
        queue.push(Box::new(move || {
            c.fetch_add(1, Ordering::SeqCst);
        }));
    }
    for task in queue.take_all() {
        task();
    }
    assert_eq!(counter.load(Ordering::SeqCst), 3);
}
