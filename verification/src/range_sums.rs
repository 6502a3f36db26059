use crate::message::MySbMessageContent;
use vstd::prelude::*;

verus! {

/// Payload length of one resident message, as a mathematical integer.
pub open spec fn msg_size(m: MySbMessageContent) -> int {
    m.content.len() as int
}

/// Summed payload length of the messages of `m` whose id lies in
/// `[lo, hi)`.
pub open spec fn bytes_range(m: Map<i64, MySbMessageContent>, lo: int, hi: int) -> int
    decreases hi - lo,
{
    if lo >= hi {
        0
    } else {
        (if m.contains_key(lo as i64) {
            msg_size(m[lo as i64])
        } else {
            0
        }) + bytes_range(m, lo + 1, hi)
    }
}

/// Number of messages of `m` whose id lies in `[lo, hi)`.
pub open spec fn count_range(m: Map<i64, MySbMessageContent>, lo: int, hi: int) -> int
    decreases hi - lo,
{
    if lo >= hi {
        0
    } else {
        (if m.contains_key(lo as i64) {
            1int
        } else {
            0int
        }) + count_range(m, lo + 1, hi)
    }
}

/// Both range sums are non-negative, and the count never exceeds the
/// width of the range.
pub proof fn lemma_range_sums_bounds(m: Map<i64, MySbMessageContent>, lo: int, hi: int)
    ensures
        0 <= bytes_range(m, lo, hi),
        0 <= count_range(m, lo, hi) <= (if lo <= hi { hi - lo } else { 0 }),
    decreases hi - lo,
{
    if lo < hi {
        lemma_range_sums_bounds(m, lo + 1, hi);
    }
}

/// Splitting a range splits both sums.
pub proof fn lemma_range_sums_split(m: Map<i64, MySbMessageContent>, lo: int, mid: int, hi: int)
    requires
        lo <= mid <= hi,
    ensures
        bytes_range(m, lo, hi) == bytes_range(m, lo, mid) + bytes_range(m, mid, hi),
        count_range(m, lo, hi) == count_range(m, lo, mid) + count_range(m, mid, hi),
    decreases mid - lo,
{
    if lo < mid {
        lemma_range_sums_split(m, lo + 1, mid, hi);
    }
}

/// Two maps that agree on every key in `[lo, hi)` have the same range
/// sums there.
pub proof fn lemma_range_sums_agree(
    m1: Map<i64, MySbMessageContent>,
    m2: Map<i64, MySbMessageContent>,
    lo: int,
    hi: int,
)
    requires
        forall|k: i64| #![trigger m1.contains_key(k)]
            lo <= k < hi ==> (m1.contains_key(k) <==> m2.contains_key(k)),
        forall|k: i64| #![trigger m1[k]]
            lo <= k < hi && m1.contains_key(k) ==> m1[k] == m2[k],
        i64::MIN <= lo,
        hi <= i64::MAX as int + 1,
    ensures
        bytes_range(m1, lo, hi) == bytes_range(m2, lo, hi),
        count_range(m1, lo, hi) == count_range(m2, lo, hi),
    decreases hi - lo,
{
    if lo < hi {
        assert(lo <= (lo as i64) < hi);
        lemma_range_sums_agree(m1, m2, lo + 1, hi);
    }
}

/// A map with no key in the range contributes nothing to either sum.
pub proof fn lemma_range_sums_none(m: Map<i64, MySbMessageContent>, lo: int, hi: int)
    requires
        forall|k: i64| lo <= k < hi ==> !(#[trigger] m.contains_key(k)),
        i64::MIN <= lo,
        hi <= i64::MAX as int + 1,
    ensures
        bytes_range(m, lo, hi) == 0,
        count_range(m, lo, hi) == 0,
    decreases hi - lo,
{
    if lo < hi {
        assert(lo <= (lo as i64) < hi);
        lemma_range_sums_none(m, lo + 1, hi);
    }
}

/// Inserting a message at a key inside the range adds its size to the
/// byte sum, replacing whatever the key held before.
pub proof fn lemma_range_sums_insert(
    m: Map<i64, MySbMessageContent>,
    lo: int,
    hi: int,
    k: i64,
    v: MySbMessageContent,
)
    requires
        lo <= k < hi,
        i64::MIN <= lo,
        hi <= i64::MAX as int + 1,
    ensures
        bytes_range(m.insert(k, v), lo, hi) == bytes_range(m, lo, hi) + msg_size(v) - (
        if m.contains_key(k) {
            msg_size(m[k])
        } else {
            0
        }),
        count_range(m.insert(k, v), lo, hi) == count_range(m, lo, hi) + (
        if m.contains_key(k) {
            0int
        } else {
            1int
        }),
    decreases hi - lo,
{
    if lo < hi {
        if k == lo as i64 {
            lemma_range_sums_agree(m.insert(k, v), m, lo + 1, hi);
        } else {
            lemma_range_sums_insert(m, lo + 1, hi, k, v);
        }
    }
}

/// Removing a key inside the range takes its contribution out of both
/// sums.
pub proof fn lemma_range_sums_remove(m: Map<i64, MySbMessageContent>, lo: int, hi: int, k: i64)
    requires
        lo <= k < hi,
        i64::MIN <= lo,
        hi <= i64::MAX as int + 1,
    ensures
        bytes_range(m.remove(k), lo, hi) == bytes_range(m, lo, hi) - (
        if m.contains_key(k) {
            msg_size(m[k])
        } else {
            0
        }),
        count_range(m.remove(k), lo, hi) == count_range(m, lo, hi) - (
        if m.contains_key(k) {
            1int
        } else {
            0int
        }),
    decreases hi - lo,
{
    if lo < hi {
        if k == lo as i64 {
            lemma_range_sums_agree(m.remove(k), m, lo + 1, hi);
        } else {
            lemma_range_sums_remove(m, lo + 1, hi, k);
        }
    }
}

/// One resident key contributes its full size to the byte sum and one
/// entry to the count: both sums dominate that single contribution.
pub proof fn lemma_range_sums_member(m: Map<i64, MySbMessageContent>, lo: int, hi: int, k: i64)
    requires
        lo <= k < hi,
        i64::MIN <= lo,
        hi <= i64::MAX as int + 1,
        m.contains_key(k),
    ensures
        msg_size(m[k]) <= bytes_range(m, lo, hi),
        1 <= count_range(m, lo, hi),
{
    lemma_range_sums_split(m, lo, k as int, hi);
    lemma_range_sums_split(m, k as int, k as int + 1, hi);
    lemma_range_sums_bounds(m, lo, k as int);
    lemma_range_sums_bounds(m, k as int + 1, hi);
}

/// When every key of the map lies in `[lo, hi)`, the range count is
/// the whole map's cardinality.
pub proof fn lemma_count_range_is_dom_len(m: Map<i64, MySbMessageContent>, lo: int, hi: int)
    requires
        m.dom().finite(),
        forall|k: i64| m.contains_key(k) ==> lo <= k < hi,
        i64::MIN <= lo,
        hi <= i64::MAX as int + 1,
    ensures
        count_range(m, lo, hi) == m.dom().len(),
    decreases hi - lo,
{
    if lo >= hi {
        if m.dom().len() > 0 {
            let k = m.dom().choose();
            assert(m.contains_key(k));
        }
        assert(m.dom() =~= Set::<i64>::empty());
    } else {
        let key = lo as i64;
        if m.contains_key(key) {
            let m2 = m.remove(key);
            assert(forall|k: i64| m2.contains_key(k) ==> lo + 1 <= k < hi);
            lemma_count_range_is_dom_len(m2, lo + 1, hi);
            lemma_range_sums_agree(m2, m, lo + 1, hi);
        } else {
            assert(forall|k: i64| m.contains_key(k) ==> lo + 1 <= k < hi);
            lemma_count_range_is_dom_len(m, lo + 1, hi);
        }
    }
}

} // verus!
