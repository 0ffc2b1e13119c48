use voxel_world::worker_threads::WorkerPool;

#[test]
fn a_new_pool_has_all_workers_idle() {
    let pool: WorkerPool<u32> = WorkerPool::new(3);
    assert_eq!(pool.num_workers(), 3);
    assert_eq!(pool.idle_count(), 3);
    assert_eq!(pool.pending_count(), 0);
}

#[test]
fn jobs_go_to_the_workers_in_turn() {
    let mut pool = WorkerPool::new(3);
    assert_eq!(pool.submit("a"), Some((0, "a")));
    assert_eq!(pool.submit("b"), Some((1, "b")));
    assert_eq!(pool.submit("c"), Some((2, "c")));
    assert_eq!(pool.idle_count(), 0);
    // all are busy: the next jobs wait
    assert_eq!(pool.submit("d"), None);
    assert_eq!(pool.submit("e"), None);
    assert_eq!(pool.pending_count(), 2);
    // who finishes takes the oldest waiting job at once
    assert_eq!(pool.complete(1), Some((1, "d")));
    assert_eq!(pool.complete(0), Some((0, "e")));
    assert_eq!(pool.pending_count(), 0);
    // with nothing waiting, workers go idle, and are used again in the order they came free
    assert_eq!(pool.complete(2), None);
    assert_eq!(pool.complete(0), None);
    assert_eq!(pool.idle_count(), 2);
    assert_eq!(pool.submit("f"), Some((2, "f")));
    assert_eq!(pool.submit("g"), Some((0, "g")));
}

#[test]
fn a_worker_that_is_not_busy_cannot_finish() {
    let mut pool = WorkerPool::new(2);
    assert_eq!(pool.complete(0), None);
    assert_eq!(pool.complete(7), None);
    assert_eq!(pool.idle_count(), 2);
    assert_eq!(pool.submit(1u8), Some((0, 1u8)));
    assert_eq!(pool.complete(0), None);
    assert_eq!(pool.complete(0), None);
    assert_eq!(pool.idle_count(), 2);
    // worker 1 was idle first
    assert_eq!(pool.submit(2u8), Some((1, 2u8)));
    assert_eq!(pool.submit(3u8), Some((0, 3u8)));
}

#[test]
fn a_pool_without_workers_keeps_every_job_waiting() {
    let mut pool = WorkerPool::new(0);
    assert_eq!(pool.submit(1), None);
    assert_eq!(pool.submit(2), None);
    assert_eq!(pool.pending_count(), 2);
    assert_eq!(pool.complete(0), None);
}
