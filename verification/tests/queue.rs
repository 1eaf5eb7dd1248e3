use full_logger::thread::{
    flush_log_thread, launch_task, log_thread_enabled, next_task, start_log_thread, worker_pause,
    TaskQueue,
};

#[test]
fn without_a_worker_tasks_come_back() {
    let mut queue: TaskQueue<u32> = TaskQueue::new();
    assert!(!log_thread_enabled(&queue));
    assert_eq!(launch_task(&mut queue, 5), Some(5));
    assert_eq!(queue.len(), 0);
    assert_eq!(flush_log_thread(&queue, 3), None);
}

#[test]
fn only_the_first_start_asks_for_a_worker() {
    let mut queue: TaskQueue<u32> = TaskQueue::new();
    assert!(start_log_thread(&mut queue, 10, 1));
    assert!(log_thread_enabled(&queue));
    assert!(!start_log_thread(&mut queue, 20, 2));
    assert!(log_thread_enabled(&queue));
    assert_eq!(queue.idle_cooldown, 20);
    assert_eq!(queue.working_cooldown, 2);
}

#[test]
fn tasks_leave_in_the_order_of_their_arrival() {
    let mut queue: TaskQueue<(u8, u32)> = TaskQueue::new();
    start_log_thread(&mut queue, 10, 1);
    let arrivals = [(0u8, 0u32), (1, 0), (0, 1), (0, 2), (1, 1), (2, 0), (1, 2)];
    for task in arrivals.iter() {
        assert_eq!(launch_task(&mut queue, *task), None);
    }
    let mut taken: Vec<(u8, u32)> = Vec::new();
    while let Some(task) = next_task(&mut queue) {
        taken.push(task);
    }
    assert_eq!(taken, arrivals);
    for producer in 0..3u8 {
        let own: Vec<u32> = taken.iter().filter(|t| t.0 == producer).map(|t| t.1).collect();
        let mut sorted = own.clone();
        sorted.sort();
        assert_eq!(own, sorted);
    }
}

#[test]
fn launches_between_takes_keep_their_order() {
    let mut queue: TaskQueue<u32> = TaskQueue::new();
    start_log_thread(&mut queue, 10, 1);
    launch_task(&mut queue, 1);
    launch_task(&mut queue, 2);
    assert_eq!(next_task(&mut queue), Some(1));
    launch_task(&mut queue, 3);
    assert_eq!(next_task(&mut queue), Some(2));
    assert_eq!(next_task(&mut queue), Some(3));
    assert_eq!(next_task(&mut queue), None);
}

#[test]
fn flush_waits_until_the_queue_is_empty() {
    let mut queue: TaskQueue<u32> = TaskQueue::new();
    start_log_thread(&mut queue, 10, 1);
    assert_eq!(flush_log_thread(&queue, 7), None);
    launch_task(&mut queue, 1);
    launch_task(&mut queue, 2);
    assert_eq!(flush_log_thread(&queue, 7), Some(7));
    next_task(&mut queue);
    assert_eq!(flush_log_thread(&queue, 7), Some(7));
    next_task(&mut queue);
    assert_eq!(flush_log_thread(&queue, 7), None);
    assert_eq!(queue.len(), 0);
}

#[test]
fn the_worker_pauses_by_what_it_found() {
    let mut queue: TaskQueue<u32> = TaskQueue::new();
    start_log_thread(&mut queue, 10, 1);
    assert_eq!(worker_pause(&queue), 10);
    launch_task(&mut queue, 1);
    assert_eq!(next_task(&mut queue), Some(1));
    assert_eq!(worker_pause(&queue), 1);
    assert_eq!(next_task(&mut queue), None);
    assert_eq!(worker_pause(&queue), 10);
}
