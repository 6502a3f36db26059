use vstd::prelude::*;

verus! {

/// Number of message ids that one page spans.
pub const MESSAGES_IN_PAGE: i64 = 100_000;

/// Largest page id whose full id range still fits in an `i64`.
pub const MAX_PAGE_ID: i64 = 92_233_720_368_546;

/// The page that owns a message id: floor division by the page span.
pub open spec fn spec_page_of(message_id: int) -> int {
    message_id / (MESSAGES_IN_PAGE as int)
}

/// The lowest message id that nominally belongs to page `page`.
pub open spec fn spec_first_message_id(page: int) -> int {
    page * (MESSAGES_IN_PAGE as int)
}

/// The highest message id that nominally belongs to page `page`.
pub open spec fn spec_last_message_id(page: int) -> int {
    (page + 1) * (MESSAGES_IN_PAGE as int) - 1
}

/// Identifies one fixed-size range of message ids.
#[derive(Debug, Clone, Copy, PartialEq, Eq, Structural)]
pub struct PageId(pub i64);

impl PageId {
    pub fn new(value: i64) -> (r: Self)
        ensures
            r.0 == value,
    {
        Self(value)
    }

    pub fn from_message_id(message_id: i64) -> (r: Self)
        requires
            0 <= message_id,
        ensures
            r.0 == spec_page_of(message_id as int),
            0 <= r.0 <= MAX_PAGE_ID + 1,
    {
        proof {
            vstd::arithmetic::div_mod::lemma_div_nonincreasing(
                message_id as int,
                MESSAGES_IN_PAGE as int,
            );
            vstd::arithmetic::div_mod::lemma_div_is_ordered(
                message_id as int,
                i64::MAX as int,
                MESSAGES_IN_PAGE as int,
            );
        }
        Self(message_id / MESSAGES_IN_PAGE)
    }

    pub fn get_first_message_id(&self) -> (r: i64)
        requires
            0 <= self.0 <= MAX_PAGE_ID,
        ensures
            r == spec_first_message_id(self.0 as int),
    {
        self.0 * MESSAGES_IN_PAGE
    }

    pub fn get_last_message_id(&self) -> (r: i64)
        requires
            0 <= self.0 <= MAX_PAGE_ID,
        ensures
            r == spec_last_message_id(self.0 as int),
    {
        (self.0 + 1) * MESSAGES_IN_PAGE - 1
    }

    pub fn get_value(&self) -> (r: i64)
        ensures
            r == self.0,
    {
        self.0
    }

    /// The nominal id range of this page, independent of residency.
    pub fn iterate_messages(&self) -> (r: core::ops::Range<i64>)
        requires
            0 <= self.0 <= MAX_PAGE_ID,
        ensures
            r.start == spec_first_message_id(self.0 as int),
            r.end == spec_first_message_id(self.0 as int) + MESSAGES_IN_PAGE,
    {
        let first_message_id = self.get_first_message_id();
        first_message_id..first_message_id + MESSAGES_IN_PAGE
    }

    /// Addresses the page `rhs` steps after this one.
    pub fn add(&self, rhs: i64) -> (r: Self)
        requires
            i64::MIN <= self.0 + rhs <= i64::MAX,
        ensures
            r.0 == self.0 + rhs,
    {
        Self(self.0 + rhs)
    }
}

/// A message id maps into the page whose nominal range holds it: the
/// round trip through the page bounds is the identity for every page.
pub proof fn lemma_page_id_round_trip(page: int)
    requires
        0 <= page,
    ensures
        spec_page_of(spec_first_message_id(page)) == page,
        spec_page_of(spec_last_message_id(page)) == page,
{
    let n = MESSAGES_IN_PAGE as int;
    vstd::arithmetic::div_mod::lemma_div_multiples_vanish(page, n);
    assert((page + 1) * n - 1 == page * n + (n - 1)) by (nonlinear_arith);
    vstd::arithmetic::div_mod::lemma_div_multiples_vanish_fancy(page, n - 1, n);
}

} // verus!
