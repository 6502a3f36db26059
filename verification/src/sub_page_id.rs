use vstd::prelude::*;

verus! {

/// Number of message ids that one sub-page spans. Divides
/// `MESSAGES_IN_PAGE` evenly, so a sub-page never spans two pages.
pub const MESSAGES_IN_SUB_PAGE: i64 = 1_000;

/// Largest sub-page id for which the first id of the following
/// sub-page still fits in an `i64`.
pub const MAX_SUB_PAGE_ID: i64 = 9_223_372_036_854_774;

/// The sub-page that owns a message id.
pub open spec fn spec_sub_page_of(message_id: int) -> int {
    message_id / (MESSAGES_IN_SUB_PAGE as int)
}

/// The lowest message id that nominally belongs to sub-page `sub_page`.
pub open spec fn spec_sub_page_first_id(sub_page: int) -> int {
    sub_page * (MESSAGES_IN_SUB_PAGE as int)
}

/// Identifies one sub-page-sized range of message ids.
#[derive(Debug, Clone, Copy, PartialEq, Eq, Structural)]
pub struct SubPageId(pub i64);

impl SubPageId {
    pub fn new(value: i64) -> (r: Self)
        ensures
            r.0 == value,
    {
        Self(value)
    }

    pub fn from_message_id(message_id: i64) -> (r: Self)
        requires
            0 <= message_id,
        ensures
            r.0 == spec_sub_page_of(message_id as int),
            0 <= r.0 <= MAX_SUB_PAGE_ID + 1,
    {
        proof {
            vstd::arithmetic::div_mod::lemma_div_nonincreasing(
                message_id as int,
                MESSAGES_IN_SUB_PAGE as int,
            );
            vstd::arithmetic::div_mod::lemma_div_is_ordered(
                message_id as int,
                i64::MAX as int,
                MESSAGES_IN_SUB_PAGE as int,
            );
        }
        Self(message_id / MESSAGES_IN_SUB_PAGE)
    }

    pub fn get_value(&self) -> (r: i64)
        ensures
            r == self.0,
    {
        self.0
    }

    pub fn get_first_message_id(&self) -> (r: i64)
        requires
            0 <= self.0 <= MAX_SUB_PAGE_ID,
        ensures
            r == spec_sub_page_first_id(self.0 as int),
    {
        self.0 * MESSAGES_IN_SUB_PAGE
    }

    /// The first message id past this sub-page's own range.
    pub fn get_first_message_id_of_next_sub_page(&self) -> (r: i64)
        requires
            0 <= self.0 <= MAX_SUB_PAGE_ID,
        ensures
            r == spec_sub_page_first_id(self.0 as int + 1),
    {
        proof {
            assert((self.0 as int + 1) * (MESSAGES_IN_SUB_PAGE as int) == self.0 as int
                * (MESSAGES_IN_SUB_PAGE as int) + MESSAGES_IN_SUB_PAGE as int)
                by (nonlinear_arith);
        }
        (self.0 + 1) * MESSAGES_IN_SUB_PAGE
    }
}

/// A message id maps into the sub-page whose nominal range holds it.
pub proof fn lemma_sub_page_id_round_trip(sub_page: int)
    requires
        0 <= sub_page,
    ensures
        spec_sub_page_of(spec_sub_page_first_id(sub_page)) == sub_page,
        spec_sub_page_of(spec_sub_page_first_id(sub_page + 1) - 1) == sub_page,
{
    let n = MESSAGES_IN_SUB_PAGE as int;
    vstd::arithmetic::div_mod::lemma_div_multiples_vanish(sub_page, n);
    assert((sub_page + 1) * n - 1 == sub_page * n + (n - 1)) by (nonlinear_arith);
    vstd::arithmetic::div_mod::lemma_div_multiples_vanish_fancy(sub_page, n - 1, n);
}

} // verus!
