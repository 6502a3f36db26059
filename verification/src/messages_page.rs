use crate::message::MySbMessageContent;
use crate::page_id::spec_first_message_id;
use crate::page_id::PageId;
use crate::page_id::MAX_PAGE_ID;
use crate::page_id::MESSAGES_IN_PAGE;
use crate::queue_with_intervals::QueueWithIntervals;
use crate::range_sums::bytes_range;
use crate::range_sums::lemma_count_range_is_dom_len;
use crate::range_sums::lemma_range_sums_bounds;
use crate::range_sums::lemma_range_sums_insert;
use crate::range_sums::lemma_range_sums_member;
use crate::range_sums::lemma_range_sums_none;
use crate::range_sums::msg_size;
use crate::size_and_amount::SizeAndAmount;
use std::collections::BTreeMap;
use vstd::prelude::*;

verus! {

broadcast use vstd::std_specs::btree::group_btree_axioms, vstd::laws_cmp::group_laws_cmp;

/// The message map after a batch is applied in order: each message is
/// inserted under its id, a later duplicate overwriting an earlier one.
pub open spec fn apply_batch(
    m: Map<i64, MySbMessageContent>,
    s: Seq<MySbMessageContent>,
) -> Map<i64, MySbMessageContent>
    decreases s.len(),
{
    if s.len() == 0 {
        m
    } else {
        apply_batch(m, s.drop_last()).insert(s.last().id, s.last())
    }
}

/// Summed payload length of a batch.
pub open spec fn batch_bytes(s: Seq<MySbMessageContent>) -> int
    decreases s.len(),
{
    if s.len() == 0 {
        0
    } else {
        batch_bytes(s.drop_last()) + msg_size(s.last())
    }
}

/// A batch's byte sum is non-negative and decomposes at the front.
proof fn lemma_batch_bytes_first(s: Seq<MySbMessageContent>)
    requires
        s.len() > 0,
    ensures
        batch_bytes(s) == msg_size(s[0]) + batch_bytes(s.drop_first()),
    decreases s.len(),
{
    if s.len() == 1 {
        assert(batch_bytes(s.drop_last()) == 0);
        assert(batch_bytes(s.drop_first()) == 0);
        assert(batch_bytes(s) == batch_bytes(s.drop_last()) + msg_size(s.last()));
        assert(s.last() == s[0]);
    } else {
        lemma_batch_bytes_first(s.drop_last());
        assert(s.drop_last().drop_first() =~= s.drop_first().drop_last());
        assert(s.drop_first().last() == s.last());
        assert(s.drop_last()[0] == s[0]);
        assert(batch_bytes(s.drop_first()) == batch_bytes(s.drop_first().drop_last()) + msg_size(
            s.drop_first().last(),
        ));
        assert(batch_bytes(s) == batch_bytes(s.drop_last()) + msg_size(s.last()));
    }
}

proof fn lemma_batch_bytes_nonneg(s: Seq<MySbMessageContent>)
    ensures
        batch_bytes(s) >= 0,
    decreases s.len(),
{
    if s.len() > 0 {
        lemma_batch_bytes_nonneg(s.drop_last());
    }
}

/// One page-sized range of resident messages with its page-wide
/// persist backlog and the advisory flush-in-progress flag, flipped by
/// the external persistence driver and only stored here.
pub struct MessagesPage {
    pub page_id: PageId,
    pub messages: BTreeMap<i64, MySbMessageContent>,
    pub to_be_persisted: QueueWithIntervals,
    pub size_and_amount: SizeAndAmount,
    pub is_being_persisted: bool,
}

impl MessagesPage {
    /// The lowest message id that nominally belongs to this page.
    pub open spec fn first_id(self) -> int {
        spec_first_message_id(self.page_id.0 as int)
    }

    /// The first message id past this page's nominal range.
    pub open spec fn end_id(self) -> int {
        self.first_id() + MESSAGES_IN_PAGE
    }

    /// Internal consistency: every resident message lies in this
    /// page's range under its own id, the persist backlog stays within
    /// the range, and the accounting equals the byte sum and
    /// cardinality of the resident map.
    pub open spec fn wf(self) -> bool {
        &&& 0 <= self.page_id.0 <= MAX_PAGE_ID
        &&& self.to_be_persisted.wf()
        &&& self.to_be_persisted@.finite()
        &&& forall|k: i64|
            #[trigger] self.messages@.contains_key(k) ==> self.first_id() <= k < self.end_id()
                && self.messages@[k].id == k
        &&& forall|id: int|
            #[trigger] self.to_be_persisted@.contains(id) ==> self.first_id() <= id
                < self.end_id()
        &&& self.size_and_amount.size == bytes_range(self.messages@, self.first_id(), self.end_id())
        &&& self.size_and_amount.amount == self.messages@.dom().len()
    }

    /// Bounds of a valid page's nominal range within `i64`.
    pub proof fn lemma_range_fits(page: int)
        requires
            0 <= page <= MAX_PAGE_ID,
        ensures
            0 <= spec_first_message_id(page),
            spec_first_message_id(page) + MESSAGES_IN_PAGE < i64::MAX,
    {
        vstd::arithmetic::mul::lemma_mul_nonnegative(page, MESSAGES_IN_PAGE as int);
        vstd::arithmetic::mul::lemma_mul_inequality(
            page,
            MAX_PAGE_ID as int,
            MESSAGES_IN_PAGE as int,
        );
    }

    pub fn new(page_id: PageId) -> (r: Self)
        requires
            0 <= page_id.0 <= MAX_PAGE_ID,
        ensures
            r.wf(),
            r.page_id == page_id,
            r.messages@ == Map::<i64, MySbMessageContent>::empty(),
            r.to_be_persisted@ == Set::<int>::empty(),
            r.is_being_persisted == false,
    {
        let r = Self {
            page_id,
            messages: BTreeMap::new(),
            to_be_persisted: QueueWithIntervals::new(),
            size_and_amount: SizeAndAmount::new(),
            is_being_persisted: false,
        };
        proof {
            lemma_range_sums_none(r.messages@, r.first_id(), r.end_id());
            assert(r.messages@.dom() =~= Set::<i64>::empty());
        }
        r
    }

    /// Appends a batch: every message is inserted under its id, marked
    /// pending persist, and accounted; a duplicate id supersedes the
    /// earlier entry without double counting.
    pub fn new_messages(&mut self, mut msgs: Vec<MySbMessageContent>)
        requires
            old(self).wf(),
            forall|j: int|
                0 <= j < msgs@.len() ==> old(self).first_id() <= (#[trigger] msgs@[j]).id < old(
                    self,
                ).end_id(),
            bytes_range(old(self).messages@, old(self).first_id(), old(self).end_id())
                + batch_bytes(msgs@) <= usize::MAX,
        ensures
            final(self).wf(),
            final(self).messages@ == apply_batch(old(self).messages@, msgs@),
            forall|id: int|
                #![trigger final(self).to_be_persisted@.contains(id)]
                #![trigger old(self).to_be_persisted@.contains(id)]
                final(self).to_be_persisted@.contains(id) <==> (old(
                    self,
                ).to_be_persisted@.contains(id) || exists|j: int|
                    0 <= j < msgs@.len() && (#[trigger] msgs@[j]).id == id),
            final(self).page_id == old(self).page_id,
            final(self).is_being_persisted == old(self).is_being_persisted,
    {
        let initial_len = msgs.len();
        let ghost orig = msgs@;
        proof {
            assert(orig.len() == initial_len);
        }
        let ghost m0 = self.messages@;
        let ghost lo = self.first_id();
        let ghost hi = self.end_id();
        proof {
            Self::lemma_range_fits(self.page_id.0 as int);
        }
        let mut i: usize = 0;
        while msgs.len() > 0
            invariant
                self.wf(),
                self.page_id == old(self).page_id,
                self.is_being_persisted == old(self).is_being_persisted,
                lo == self.first_id(),
                hi == self.end_id(),
                0 <= lo,
                hi < i64::MAX,
                i + msgs@.len() == orig.len(),
                orig.len() <= usize::MAX,
                msgs@ == orig.subrange(i as int, orig.len() as int),
                forall|j: int| 0 <= j < orig.len() ==> lo <= (#[trigger] orig[j]).id < hi,
                self.messages@ == apply_batch(m0, orig.take(i as int)),
                bytes_range(self.messages@, lo, hi) + batch_bytes(msgs@) <= usize::MAX,
                forall|id: int|
                    #![trigger self.to_be_persisted@.contains(id)]
                    #![trigger old(self).to_be_persisted@.contains(id)]
                    self.to_be_persisted@.contains(id) <==> (old(
                        self,
                    ).to_be_persisted@.contains(id) || exists|j: int|
                        0 <= j < i && (#[trigger] orig[j]).id == id),
            decreases msgs@.len(),
        {
            proof {
                lemma_batch_bytes_first(msgs@);
                lemma_batch_bytes_nonneg(msgs@.drop_first());
                lemma_count_range_is_dom_len(self.messages@, lo, hi);
                lemma_range_sums_bounds(self.messages@, lo, hi);
                assert(orig[i as int] == msgs@[0]);
                lemma_range_sums_insert(self.messages@, lo, hi, msgs@[0].id, msgs@[0]);
                if self.messages@.contains_key(msgs@[0].id) {
                    lemma_range_sums_member(self.messages@, lo, hi, msgs@[0].id);
                }
                assert(orig.take(i as int + 1).drop_last() =~= orig.take(i as int));
            }
            let message = msgs.remove(0);
            let id = message.id;
            let len = message.content.len();
            self.size_and_amount.added(len);
            self.to_be_persisted.enqueue(id);
            if let Some(old_message) = self.messages.insert(id, message) {
                self.size_and_amount.removed(old_message.content.len());
            }
            i = i + 1;
            proof {
                assert(msgs@ =~= orig.subrange(i as int, orig.len() as int));
            }
        }
        proof {
            assert(orig.take(orig.len() as int) =~= orig);
        }
    }
}

} // verus!
