use lodestone_api::queue::ScrapeQueue;

#[test]
fn enqueue_assigns_sequential_positions() {
    let mut q = ScrapeQueue::new();
    assert_eq!(q.enqueue(10), 1);
    assert_eq!(q.enqueue(20), 2);
    assert_eq!(q.enqueue(30), 3);
    assert_eq!(q.entries, vec![10, 20, 30]);
}

#[test]
fn repeated_enqueue_observes_one_position_and_one_entry() {
    let mut q = ScrapeQueue::new();
    let first = q.enqueue(5);
    assert_eq!(first, 1);
    for _ in 0..10 {
        assert_eq!(q.enqueue(5), first);
    }
    assert_eq!(q.entries, vec![5]);
    assert_eq!(q.claimed, vec![(5, 1)]);
}

#[test]
fn dequeue_is_fifo() {
    let mut q = ScrapeQueue::new();
    q.enqueue(1);
    q.enqueue(2);
    q.enqueue(3);
    assert_eq!(q.dequeue(), Some(1));
    assert_eq!(q.dequeue(), Some(2));
    assert_eq!(q.dequeue(), Some(3));
    assert_eq!(q.dequeue(), None);
}

#[test]
fn inflight_id_is_not_requeued_before_release() {
    let mut q = ScrapeQueue::new();
    q.enqueue(5);
    q.enqueue(6);
    assert_eq!(q.dequeue(), Some(5));
    // 5 is in flight: enqueueing it again observes the recorded
    // position and must not put it back in the queue.
    assert_eq!(q.enqueue(5), 1);
    assert_eq!(q.entries, vec![6]);
    // so the next dequeues cannot hand out 5 again
    assert_eq!(q.dequeue(), Some(6));
    assert_eq!(q.dequeue(), None);
    // release ends the in-flight state; a fresh enqueue queues it anew
    q.release(5);
    q.release(6);
    let pos = q.enqueue(5);
    assert_eq!(pos, 1);
    assert_eq!(q.entries, vec![5]);
    assert_eq!(q.dequeue(), Some(5));
}

#[test]
fn release_drops_only_the_named_claim() {
    let mut q = ScrapeQueue::new();
    q.enqueue(1);
    q.enqueue(2);
    q.dequeue();
    q.dequeue();
    q.release(1);
    assert_eq!(q.claimed, vec![(2, 2)]);
}
