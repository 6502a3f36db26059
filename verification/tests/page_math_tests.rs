use message_pages::page_id::PageId;
use message_pages::page_id::MAX_PAGE_ID;
use message_pages::sub_page_id::SubPageId;

#[test]
fn test_last_message_id_of_the_page() {
    assert_eq!(099_999, PageId::new(0).get_last_message_id());

    assert_eq!(199_999, PageId::new(1).get_last_message_id());

    assert_eq!(299_999, PageId::new(2).get_last_message_id());
}

#[test]
fn page_of_message_id_boundaries() {
    assert_eq!(0, PageId::from_message_id(99_999).get_value());
    assert_eq!(1, PageId::from_message_id(100_000).get_value());
}

#[test]
fn page_round_trip_through_bounds() {
    for p in [0i64, 1, 2, 77, MAX_PAGE_ID] {
        let page = PageId::new(p);
        assert_eq!(p, PageId::from_message_id(page.get_first_message_id()).get_value());
        assert_eq!(p, PageId::from_message_id(page.get_last_message_id()).get_value());
    }
}

#[test]
fn page_first_and_last_message_ids() {
    assert_eq!(0, PageId::new(0).get_first_message_id());
    assert_eq!(300_000, PageId::new(3).get_first_message_id());
    assert_eq!(9_223_372_036_854_600_000, PageId::new(MAX_PAGE_ID).get_first_message_id());
    assert_eq!(9_223_372_036_854_699_999, PageId::new(MAX_PAGE_ID).get_last_message_id());
}

#[test]
fn page_iterate_messages_covers_the_nominal_range() {
    let range = PageId::new(2).iterate_messages();
    assert_eq!(200_000, range.start);
    assert_eq!(300_000, range.end);
    assert_eq!(100_000, range.clone().count());
    assert_eq!(Some(200_000), range.clone().min());
    assert_eq!(Some(299_999), range.clone().max());
}

#[test]
fn page_id_addition_addresses_neighbours() {
    let page = PageId::new(7);
    assert_eq!(8, page.add(1).get_value());
    assert_eq!(5, page.add(-2).get_value());
}

#[test]
fn sub_page_of_message_id_boundaries() {
    assert_eq!(0, SubPageId::from_message_id(999).get_value());
    assert_eq!(1, SubPageId::from_message_id(1_000).get_value());
    assert_eq!(100, SubPageId::from_message_id(100_000).get_value());
}

#[test]
fn sub_page_first_ids() {
    assert_eq!(0, SubPageId::new(0).get_first_message_id());
    assert_eq!(5_000, SubPageId::new(5).get_first_message_id());
    assert_eq!(6_000, SubPageId::new(5).get_first_message_id_of_next_sub_page());
}
