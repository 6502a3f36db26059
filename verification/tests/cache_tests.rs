use message_pages::message::MySbMessageContent;
use message_pages::messages_page::MessagesPage;
use message_pages::messages_page_cache::MessagesPagesCache;
use message_pages::page_id::PageId;

fn msg(id: i64, content: Vec<u8>) -> MySbMessageContent {
    MySbMessageContent { id, content, time: 0, headers: None }
}

#[test]
fn ingest_then_contains_then_evict() {
    let mut cache = MessagesPagesCache::new();
    cache.new_messages(PageId::new(0), vec![msg(1, vec![1, 2, 3])]);
    assert!(cache.has_page(&PageId::new(0)));
    cache.remove_page(&PageId::new(0));
    assert!(!cache.has_page(&PageId::new(0)));
}

#[test]
fn ingest_creates_a_page_lazily_and_appends_afterwards() {
    let mut cache = MessagesPagesCache::new();
    assert!(cache.get_page(PageId::new(0)).is_none());
    cache.new_messages(PageId::new(0), vec![msg(0, vec![1]), msg(1, vec![2, 2])]);
    cache.new_messages(PageId::new(0), vec![msg(2, vec![3])]);
    let page = cache.get_page(PageId::new(0)).expect("page 0 must be resident");
    assert_eq!(3, page.messages.len());
    assert_eq!(4, page.size_and_amount.size);
    assert_eq!(3, page.to_be_persisted.len());
}

#[test]
fn pages_are_kept_apart_by_id() {
    let mut cache = MessagesPagesCache::new();
    cache.new_messages(PageId::new(0), vec![msg(5, vec![1])]);
    cache.new_messages(PageId::new(1), vec![msg(100_000, vec![2, 2])]);
    assert!(cache.has_page(&PageId::new(0)));
    assert!(cache.has_page(&PageId::new(1)));
    assert!(!cache.has_page(&PageId::new(2)));
    assert_eq!(1, cache.get_page(PageId::new(0)).unwrap().messages.len());
    assert_eq!(1, cache.get_page(PageId::new(1)).unwrap().messages.len());
    cache.remove_page(&PageId::new(0));
    assert!(cache.has_page(&PageId::new(1)));
}

#[test]
fn evicting_an_absent_page_is_a_no_op() {
    let mut cache = MessagesPagesCache::new();
    cache.new_messages(PageId::new(3), vec![msg(300_000, vec![1])]);
    cache.remove_page(&PageId::new(9));
    assert!(cache.has_page(&PageId::new(3)));
}

#[test]
fn pages_info_reports_each_resident_page() {
    let mut cache = MessagesPagesCache::new();
    cache.new_messages(PageId::new(0), vec![msg(0, vec![1, 2]), msg(1, vec![3])]);
    cache.new_messages(PageId::new(2), vec![msg(200_000, vec![4])]);
    let mut infos = cache.get_pages_info();
    infos.sort_by_key(|i| i.page_no.get_value());
    assert_eq!(2, infos.len());
    assert_eq!(0, infos[0].page_no.get_value());
    assert_eq!(3, infos[0].page_size);
    assert_eq!(2, infos[0].count);
    assert_eq!(2, infos[0].persist_size);
    assert!(!infos[0].is_being_persisted);
    assert_eq!(2, infos[1].page_no.get_value());
    assert_eq!(1, infos[1].count);
}

#[test]
fn persist_queue_size_sums_every_backlog() {
    let mut cache = MessagesPagesCache::new();
    assert_eq!(0, cache.get_persist_queue_size());
    cache.new_messages(PageId::new(0), vec![msg(0, vec![1]), msg(1, vec![2])]);
    cache.new_messages(PageId::new(1), vec![msg(100_000, vec![3])]);
    assert_eq!(3, cache.get_persist_queue_size());
}

#[test]
fn restore_page_replaces_wholesale() {
    let mut cache = MessagesPagesCache::new();
    cache.new_messages(PageId::new(0), vec![msg(0, vec![1])]);
    let mut fresh = MessagesPage::new(PageId::new(0));
    fresh.new_messages(vec![msg(3, vec![1, 2, 3, 4])]);
    cache.restore_page(fresh);
    let page = cache.get_page(PageId::new(0)).expect("page 0 must be resident");
    assert_eq!(1, page.messages.len());
    assert_eq!(4, page.size_and_amount.size);
    assert!(page.messages.contains_key(&3));
}

#[test]
fn get_pages_hands_out_every_resident_page() {
    let mut cache = MessagesPagesCache::new();
    cache.new_messages(PageId::new(0), vec![msg(0, vec![1])]);
    cache.new_messages(PageId::new(4), vec![msg(400_000, vec![2])]);
    let pages = cache.get_pages();
    assert_eq!(2, pages.len());
    let mut ids: Vec<i64> = pages.iter().map(|p| p.page_id.get_value()).collect();
    ids.sort();
    assert_eq!(vec![0, 4], ids);
}

#[test]
fn page_batch_duplicates_supersede_earlier_entries() {
    let mut page = MessagesPage::new(PageId::new(0));
    page.new_messages(vec![msg(5, vec![1, 2]), msg(5, vec![7, 8, 9])]);
    assert_eq!(1, page.messages.len());
    assert_eq!(3, page.size_and_amount.size);
    assert_eq!(vec![7, 8, 9], page.messages.get(&5).unwrap().content);
    assert_eq!(1, page.to_be_persisted.len());
}
