use message_pages::message::MySbMessage;
use message_pages::message::MySbMessageContent;
use message_pages::queue_with_intervals::QueueWithIntervals;
use message_pages::size_and_amount::SizeAndAmount;

#[test]
fn queue_starts_empty() {
    let queue = QueueWithIntervals::new();
    assert_eq!(0, queue.len());
    assert!(!queue.has_message(0));
}

#[test]
fn sequential_enqueue_merges_into_one_run() {
    let mut queue = QueueWithIntervals::new();
    for id in 0..5 {
        queue.enqueue(id);
    }
    assert_eq!(5, queue.len());
    for id in 0..5 {
        assert!(queue.has_message(id));
    }
    assert!(!queue.has_message(5));
}

#[test]
fn enqueue_is_set_like_for_duplicates() {
    let mut queue = QueueWithIntervals::new();
    queue.enqueue(7);
    queue.enqueue(7);
    assert_eq!(1, queue.len());
}

#[test]
fn enqueue_out_of_order_and_gap_filling() {
    let mut queue = QueueWithIntervals::new();
    queue.enqueue(10);
    queue.enqueue(14);
    queue.enqueue(12);
    assert_eq!(3, queue.len());
    queue.enqueue(11);
    queue.enqueue(13);
    assert_eq!(5, queue.len());
    for id in 10..15 {
        assert!(queue.has_message(id));
    }
    assert!(!queue.has_message(9));
    assert!(!queue.has_message(15));
}

#[test]
fn remove_splits_a_run_and_is_idempotent() {
    let mut queue = QueueWithIntervals::new();
    for id in 0..5 {
        queue.enqueue(id);
    }
    assert!(queue.remove(2));
    assert_eq!(4, queue.len());
    assert!(!queue.has_message(2));
    assert!(queue.has_message(1));
    assert!(queue.has_message(3));
    assert!(!queue.remove(2));
    assert_eq!(4, queue.len());
}

#[test]
fn remove_at_run_edges() {
    let mut queue = QueueWithIntervals::new();
    for id in 5..8 {
        queue.enqueue(id);
    }
    assert!(queue.remove(5));
    assert!(queue.remove(7));
    assert_eq!(1, queue.len());
    assert!(queue.has_message(6));
    assert!(queue.remove(6));
    assert_eq!(0, queue.len());
}

#[test]
fn message_slot_accessors() {
    let content = MySbMessageContent { id: 9, content: vec![1, 2, 3, 4], time: 0, headers: None };
    let loaded = MySbMessage::Loaded(content);
    assert_eq!(4, loaded.content_size());
    assert_eq!(9, loaded.get_id());
    assert!(!loaded.is_missing());
    assert!(!loaded.is_garbage_collected());
    assert_eq!(vec![1, 2, 3, 4], loaded.unwrap_as_message().content);

    let missing = MySbMessage::Missing(17);
    assert_eq!(0, missing.content_size());
    assert_eq!(17, missing.get_id());
    assert!(missing.is_missing());
    assert!(!missing.is_garbage_collected());
}

#[test]
fn message_content_keeps_headers() {
    let content = MySbMessageContent {
        id: 1,
        content: vec![1],
        time: 42,
        headers: Some(vec![("kind".to_string(), "test".to_string())]),
    };
    assert_eq!(42, content.time);
    let headers = content.headers.as_ref().unwrap();
    assert_eq!(1, headers.len());
    assert_eq!("kind", headers[0].0);
}

#[test]
fn size_and_amount_tracks_additions_and_removals() {
    let mut totals = SizeAndAmount::new();
    totals.added(10);
    totals.added(5);
    assert_eq!((15, 2), totals.snapshot());
    totals.removed(10);
    assert_eq!((5, 1), totals.snapshot());
}
