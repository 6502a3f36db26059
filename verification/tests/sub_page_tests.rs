use message_pages::message::MySbMessageContent;
use message_pages::sub_page::GetMessageResult;
use message_pages::sub_page::SubPage;
use message_pages::sub_page_id::SubPageId;
use std::collections::BTreeMap;

fn msg(id: i64, content: Vec<u8>) -> MySbMessageContent {
    MySbMessageContent { id, content, time: 0, headers: None }
}

#[test]
fn test_gc_messages() {
    let mut sub_page = SubPage::new(SubPageId::new(0));

    sub_page.add_message(MySbMessageContent {
        id: 0,
        content: vec![],
        time: 0,
        headers: None,
    });

    sub_page.add_message(MySbMessageContent {
        id: 1,
        content: vec![],
        time: 0,
        headers: None,
    });

    sub_page.gc_messages(1);
}

#[test]
fn add_then_get_and_accounting() {
    let mut sub_page = SubPage::new(SubPageId::new(0));
    let previous = sub_page.add_message(msg(5, vec![1, 2, 3]));
    assert!(previous.is_none());
    match sub_page.get_message(5) {
        GetMessageResult::Message(m) => assert_eq!(vec![1, 2, 3], m.content),
        _ => panic!("id 5 must be present"),
    }
    let totals = sub_page.get_size_and_amount().snapshot();
    assert_eq!((3, 1), totals);
}

#[test]
fn count_tracks_distinct_ids_and_bytes_track_current_content() {
    let mut sub_page = SubPage::new(SubPageId::new(0));
    sub_page.add_message(msg(1, vec![1]));
    sub_page.add_message(msg(2, vec![2, 2]));
    sub_page.add_message(msg(3, vec![3, 3, 3]));
    sub_page.add_message(msg(2, vec![9, 9, 9, 9]));
    let totals = sub_page.get_size_and_amount().snapshot();
    assert_eq!(3, totals.1);
    assert_eq!(1 + 4 + 3, totals.0);
    assert_eq!(3, sub_page.get_messages_amount());
}

#[test]
fn overwrite_returns_previous_content() {
    let mut sub_page = SubPage::new(SubPageId::new(0));
    assert!(sub_page.add_message(msg(7, vec![1, 2, 3])).is_none());
    let previous = sub_page.add_message(msg(7, vec![9]));
    assert_eq!(vec![1, 2, 3], previous.expect("the superseded entry comes back").content);
    let totals = sub_page.get_size_and_amount().snapshot();
    assert_eq!((1, 1), totals);
}

#[test]
fn gc_reclaims_below_threshold_and_keeps_the_rest() {
    let mut sub_page = SubPage::new(SubPageId::new(0));
    sub_page.add_message(msg(0, vec![1]));
    sub_page.add_message(msg(1, vec![2]));
    sub_page.gc_messages(1);
    assert!(matches!(sub_page.get_message(0), GetMessageResult::GarbageCollected));
    assert!(matches!(sub_page.get_message(1), GetMessageResult::Message(_)));
    assert_eq!(1, sub_page.get_messages_amount());
}

#[test]
fn gc_marks_holes_in_the_scanned_window() {
    let mut sub_page = SubPage::new(SubPageId::new(0));
    sub_page.add_message(msg(0, vec![1]));
    sub_page.add_message(msg(3, vec![2]));
    sub_page.gc_messages(3);
    // ids 1 and 2 were never resident, yet the scan covered them.
    assert!(matches!(sub_page.get_message(0), GetMessageResult::GarbageCollected));
    assert!(matches!(sub_page.get_message(1), GetMessageResult::GarbageCollected));
    assert!(matches!(sub_page.get_message(2), GetMessageResult::GarbageCollected));
    assert!(matches!(sub_page.get_message(3), GetMessageResult::Message(_)));
}

#[test]
fn gc_is_idempotent() {
    let mut once = SubPage::new(SubPageId::new(0));
    let mut twice = SubPage::new(SubPageId::new(0));
    for sp in [&mut once, &mut twice] {
        sp.add_message(msg(0, vec![1]));
        sp.add_message(msg(2, vec![2, 2]));
        sp.add_message(msg(5, vec![3]));
    }
    once.gc_messages(4);
    twice.gc_messages(4);
    twice.gc_messages(4);
    for id in 0..6 {
        let a = matches!(once.get_message(id), GetMessageResult::Message(_));
        let b = matches!(twice.get_message(id), GetMessageResult::Message(_));
        assert_eq!(a, b);
        let a = matches!(once.get_message(id), GetMessageResult::GarbageCollected);
        let b = matches!(twice.get_message(id), GetMessageResult::GarbageCollected);
        assert_eq!(a, b);
    }
    assert_eq!(once.get_size_and_amount().snapshot(), twice.get_size_and_amount().snapshot());
    assert_eq!(once.garbage_collected.len(), twice.garbage_collected.len());
}

#[test]
fn gc_with_no_messages_is_a_no_op() {
    let mut sub_page = SubPage::new(SubPageId::new(0));
    sub_page.gc_messages(500);
    assert!(matches!(sub_page.get_message(0), GetMessageResult::Missing));
    assert_eq!(0, sub_page.garbage_collected.len());
}

#[test]
fn gc_below_lowest_resident_id_is_a_no_op() {
    let mut sub_page = SubPage::new(SubPageId::new(0));
    sub_page.add_message(msg(10, vec![1]));
    sub_page.gc_messages(5);
    assert!(matches!(sub_page.get_message(10), GetMessageResult::Message(_)));
    assert!(matches!(sub_page.get_message(4), GetMessageResult::Missing));
    assert_eq!(0, sub_page.garbage_collected.len());
}

#[test]
fn gc_never_passes_the_sub_page_bound() {
    let mut sub_page = SubPage::new(SubPageId::new(0));
    sub_page.add_message(msg(999, vec![1]));
    sub_page.gc_messages(5_000);
    assert!(matches!(sub_page.get_message(999), GetMessageResult::GarbageCollected));
    // id 1000 belongs to the next sub-page: the scan stops before it.
    assert!(matches!(sub_page.get_message(1000), GetMessageResult::Missing));
}

#[test]
fn persisted_acknowledgement_is_idempotent() {
    let mut sub_page = SubPage::new(SubPageId::new(0));
    sub_page.add_message(msg(4, vec![1]));
    sub_page.add_message(msg(5, vec![1]));
    assert_eq!(2, sub_page.to_persist.len());
    sub_page.persisted(4);
    assert_eq!(1, sub_page.to_persist.len());
    sub_page.persisted(4);
    assert_eq!(1, sub_page.to_persist.len());
    sub_page.persisted(999);
    assert_eq!(1, sub_page.to_persist.len());
}

#[test]
fn restore_recomputes_accounting_and_leaves_nothing_pending() {
    let mut snapshot: BTreeMap<i64, MySbMessageContent> = BTreeMap::new();
    snapshot.insert(10, msg(10, vec![1, 2]));
    snapshot.insert(11, msg(11, vec![3]));
    snapshot.insert(999, msg(999, vec![4, 5, 6]));
    let sub_page = SubPage::restore(SubPageId::new(0), snapshot);
    assert_eq!(3, sub_page.get_messages_amount());
    assert_eq!((6, 3), sub_page.get_size_and_amount().snapshot());
    assert_eq!(0, sub_page.to_persist.len());
    assert_eq!(0, sub_page.garbage_collected.len());
    assert_eq!(3, sub_page.loaded.len());
    assert!(matches!(sub_page.get_message(10), GetMessageResult::Message(_)));
    assert!(matches!(sub_page.get_message(12), GetMessageResult::Missing));
}

#[test]
fn readding_a_reclaimed_id_makes_it_live_again() {
    let mut sub_page = SubPage::new(SubPageId::new(0));
    sub_page.add_message(msg(0, vec![1]));
    sub_page.add_message(msg(1, vec![1]));
    sub_page.gc_messages(2);
    assert!(matches!(sub_page.get_message(0), GetMessageResult::GarbageCollected));
    sub_page.add_message(msg(0, vec![7]));
    match sub_page.get_message(0) {
        GetMessageResult::Message(m) => assert_eq!(vec![7], m.content),
        _ => panic!("a re-added id must be present"),
    }
}

#[test]
fn get_message_result_unwrap_hands_out_the_content() {
    let mut sub_page = SubPage::new(SubPageId::new(0));
    sub_page.add_message(msg(5, vec![8, 9]));
    let result = sub_page.get_message(5);
    assert_eq!(vec![8, 9], result.unwrap().content);
}

#[test]
fn sub_page_at_the_top_of_the_id_space() {
    let top = message_pages::sub_page_id::MAX_SUB_PAGE_ID;
    let first = SubPageId::new(top).get_first_message_id();
    assert_eq!(9_223_372_036_854_774_000, first);
    let mut sub_page = SubPage::new(SubPageId::new(top));
    sub_page.add_message(msg(first, vec![1, 2]));
    sub_page.add_message(msg(first + 999, vec![3]));
    assert_eq!((3, 2), sub_page.get_size_and_amount().snapshot());
    sub_page.gc_messages(first + 1);
    assert!(matches!(sub_page.get_message(first), GetMessageResult::GarbageCollected));
    assert!(matches!(sub_page.get_message(first + 999), GetMessageResult::Message(_)));
}

#[test]
fn sub_page_in_a_higher_range() {
    let mut sub_page = SubPage::new(SubPageId::new(5));
    sub_page.add_message(msg(5_000, vec![1]));
    sub_page.add_message(msg(5_001, vec![2]));
    sub_page.gc_messages(5_001);
    assert!(matches!(sub_page.get_message(5_000), GetMessageResult::GarbageCollected));
    assert!(matches!(sub_page.get_message(5_001), GetMessageResult::Message(_)));
}
