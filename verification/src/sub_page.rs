use crate::clock;
use crate::message::MySbMessageContent;
use crate::queue_with_intervals::QueueWithIntervals;
use crate::range_sums::bytes_range;
use crate::range_sums::count_range;
use crate::range_sums::lemma_count_range_is_dom_len;
use crate::range_sums::lemma_range_sums_bounds;
use crate::range_sums::lemma_range_sums_insert;
use crate::range_sums::lemma_range_sums_member;
use crate::range_sums::lemma_range_sums_none;
use crate::range_sums::lemma_range_sums_remove;
use crate::range_sums::lemma_range_sums_split;
use crate::range_sums::msg_size;
use crate::size_and_amount::SizeAndAmount;
use crate::sub_page_id::spec_sub_page_first_id;
use crate::sub_page_id::SubPageId;
use crate::sub_page_id::MAX_SUB_PAGE_ID;
use crate::sub_page_id::MESSAGES_IN_SUB_PAGE;
use std::collections::BTreeMap;
use vstd::prelude::*;

verus! {

broadcast use vstd::std_specs::btree::group_btree_axioms, vstd::laws_cmp::group_laws_cmp;

/// Three-way answer of a lookup: a resident message, an id never seen
/// in this incarnation, or an id permanently reclaimed by collection.
pub enum GetMessageResult<'s> {
    Message(&'s MySbMessageContent),
    Missing,
    GarbageCollected,
}

impl<'s> GetMessageResult<'s> {
    /// Precondition-checked accessor: the caller must already know the
    /// lookup found a resident message.
    pub fn unwrap(&'s self) -> (r: &'s MySbMessageContent)
        requires
            self is Message,
        ensures
            r == self->Message_0,
    {
        match self {
            GetMessageResult::Message(msg) => msg,
            GetMessageResult::Missing => unreached(),
            GetMessageResult::GarbageCollected => unreached(),
        }
    }
}

/// One sub-page-sized range of resident messages, with range-set
/// tracking of pending-persist, garbage-collected and ever-loaded ids,
/// and accounting kept in lock-step with the message map.
pub struct SubPage {
    pub sub_page_id: SubPageId,
    pub messages: BTreeMap<i64, MySbMessageContent>,
    pub to_persist: QueueWithIntervals,
    pub created: i64,
    pub garbage_collected: QueueWithIntervals,
    pub loaded: QueueWithIntervals,
    pub size_and_amount: SizeAndAmount,
}

/// The full effect of one garbage collection run with threshold
/// `min_message_id`: resident ids below the threshold are gone, the
/// scanned window — from the lowest id that was present up to the
/// threshold, capped at the sub-page's upper bound — is recorded as
/// collected whether or not each id was resident, and everything else
/// is untouched.
pub open spec fn gc_transition(pre: SubPage, post: SubPage, min_message_id: i64) -> bool {
    &&& post.sub_page_id == pre.sub_page_id
    &&& post.created == pre.created
    &&& post.to_persist == pre.to_persist
    &&& post.loaded == pre.loaded
    &&& forall|k: i64|
        #![trigger post.messages@.contains_key(k)]
        #![trigger pre.messages@.contains_key(k)]
        post.messages@.contains_key(k) <==> (pre.messages@.contains_key(k) && k
            >= min_message_id)
    &&& forall|k: i64|
        #[trigger] post.messages@.contains_key(k) ==> post.messages@[k] == pre.messages@[k]
    &&& forall|id: int|
        #![trigger post.garbage_collected@.contains(id)]
        #![trigger pre.garbage_collected@.contains(id)]
        post.garbage_collected@.contains(id) <==> (pre.garbage_collected@.contains(id) || (id
            < min_message_id && id < pre.end_id() && exists|k: i64|
            #[trigger] pre.messages@.contains_key(k) && k <= id))
}

impl SubPage {
    /// The lowest message id that nominally belongs to this sub-page.
    pub open spec fn first_id(self) -> int {
        spec_sub_page_first_id(self.sub_page_id.0 as int)
    }

    /// The first message id past this sub-page's nominal range.
    pub open spec fn end_id(self) -> int {
        self.first_id() + MESSAGES_IN_SUB_PAGE
    }

    /// Internal consistency: every resident message lies in this
    /// sub-page's range under its own id; ever-loaded covers the
    /// resident ids; a collected id is never resident; the three
    /// range-sets stay within the sub-page's range; and the accounting
    /// equals the byte sum and cardinality of the resident map.
    pub open spec fn wf(self) -> bool {
        &&& 0 <= self.sub_page_id.0 <= MAX_SUB_PAGE_ID
        &&& self.to_persist.wf()
        &&& self.garbage_collected.wf()
        &&& self.loaded.wf()
        &&& forall|k: i64|
            #[trigger] self.messages@.contains_key(k) ==> self.first_id() <= k < self.end_id()
                && self.messages@[k].id == k
        &&& forall|k: i64|
            #[trigger] self.messages@.contains_key(k) ==> self.loaded@.contains(k as int)
        &&& forall|id: int|
            #[trigger] self.garbage_collected@.contains(id) ==> self.first_id() <= id
                < self.end_id() && !self.messages@.contains_key(id as i64)
        &&& forall|id: int|
            #[trigger] self.to_persist@.contains(id) ==> self.first_id() <= id < self.end_id()
        &&& forall|id: int|
            #[trigger] self.loaded@.contains(id) ==> self.first_id() <= id < self.end_id()
        &&& self.size_and_amount.size == bytes_range(self.messages@, self.first_id(), self.end_id())
        &&& self.size_and_amount.amount == self.messages@.dom().len()
    }

    pub fn new(sub_page_id: SubPageId) -> (r: Self)
        requires
            0 <= sub_page_id.0 <= MAX_SUB_PAGE_ID,
        ensures
            r.wf(),
            r.sub_page_id == sub_page_id,
            r.messages@ == Map::<i64, MySbMessageContent>::empty(),
            r.to_persist@ == Set::<int>::empty(),
            r.garbage_collected@ == Set::<int>::empty(),
            r.loaded@ == Set::<int>::empty(),
    {
        let r = Self {
            sub_page_id,
            messages: BTreeMap::new(),
            created: clock::now_unix_micros(),
            size_and_amount: SizeAndAmount::new(),
            to_persist: QueueWithIntervals::new(),
            garbage_collected: QueueWithIntervals::new(),
            loaded: QueueWithIntervals::new(),
        };
        proof {
            lemma_range_sums_none(r.messages@, r.first_id(), r.end_id());
            assert(r.messages@.dom() =~= Set::<i64>::empty());
        }
        r
    }

    /// Bounds of a valid sub-page's nominal range within `i64`.
    proof fn lemma_range_fits(sub_page: int)
        requires
            0 <= sub_page <= MAX_SUB_PAGE_ID,
        ensures
            0 <= spec_sub_page_first_id(sub_page),
            spec_sub_page_first_id(sub_page) + MESSAGES_IN_SUB_PAGE < i64::MAX,
    {
        vstd::arithmetic::mul::lemma_mul_nonnegative(sub_page, MESSAGES_IN_SUB_PAGE as int);
        vstd::arithmetic::mul::lemma_mul_inequality(
            sub_page,
            MAX_SUB_PAGE_ID as int,
            MESSAGES_IN_SUB_PAGE as int,
        );
    }

    /// Rebuilds a sub-page from an already-durable snapshot: the given
    /// messages become the resident map, accounting and ever-loaded
    /// are recomputed from them, and pending-persist and
    /// garbage-collected start empty.
    pub fn restore(sub_page_id: SubPageId, messages: BTreeMap<i64, MySbMessageContent>) -> (r:
        Self)
        requires
            0 <= sub_page_id.0 <= MAX_SUB_PAGE_ID,
            forall|k: i64|
                #[trigger] messages@.contains_key(k) ==> spec_sub_page_first_id(
                    sub_page_id.0 as int,
                ) <= k < spec_sub_page_first_id(sub_page_id.0 as int) + MESSAGES_IN_SUB_PAGE
                    && messages@[k].id == k,
            bytes_range(
                messages@,
                spec_sub_page_first_id(sub_page_id.0 as int),
                spec_sub_page_first_id(sub_page_id.0 as int) + MESSAGES_IN_SUB_PAGE,
            ) <= usize::MAX,
        ensures
            r.wf(),
            r.sub_page_id == sub_page_id,
            r.messages@ == messages@,
            r.to_persist@ == Set::<int>::empty(),
            r.garbage_collected@ == Set::<int>::empty(),
            forall|id: int|
                #[trigger] r.loaded@.contains(id) <==> messages@.contains_key(id as i64)
                    && spec_sub_page_first_id(sub_page_id.0 as int) <= id < spec_sub_page_first_id(
                    sub_page_id.0 as int,
                ) + MESSAGES_IN_SUB_PAGE,
    {
        proof {
            Self::lemma_range_fits(sub_page_id.0 as int);
        }
        let first = sub_page_id.get_first_message_id();
        let end = sub_page_id.get_first_message_id_of_next_sub_page();
        let mut size_and_amount = SizeAndAmount::new();
        let mut loaded = QueueWithIntervals::new();
        let mut id = first;
        while id < end
            invariant
                0 <= sub_page_id.0 <= MAX_SUB_PAGE_ID,
                first == spec_sub_page_first_id(sub_page_id.0 as int),
                end == first + MESSAGES_IN_SUB_PAGE,
                end < i64::MAX,
                first <= id <= end,
                forall|k: i64|
                    #[trigger] messages@.contains_key(k) ==> first <= k < end && messages@[k].id
                        == k,
                bytes_range(messages@, first as int, end as int) <= usize::MAX,
                loaded.wf(),
                forall|w: int|
                    #[trigger] loaded@.contains(w) <==> (messages@.contains_key(w as i64) && first
                        <= w < id),
                size_and_amount.size == bytes_range(messages@, first as int, id as int),
                size_and_amount.amount == count_range(messages@, first as int, id as int),
            decreases end - id,
        {
            proof {
                lemma_range_sums_split(messages@, first as int, id as int, id as int + 1);
                assert(bytes_range(messages@, id as int + 1, id as int + 1) == 0);
                assert(count_range(messages@, id as int + 1, id as int + 1) == 0);
                lemma_range_sums_split(messages@, first as int, id as int + 1, end as int);
                lemma_range_sums_bounds(messages@, id as int + 1, end as int);
                lemma_range_sums_bounds(messages@, first as int, id as int);
                lemma_range_sums_bounds(messages@, first as int, id as int + 1);
            }
            match messages.get(&id) {
                Some(msg) => {
                    size_and_amount.added(msg.content.len());
                    loaded.enqueue(id);
                },
                None => {
                },
            }
            id = id + 1;
        }
        let r = Self {
            sub_page_id,
            messages,
            created: clock::now_unix_micros(),
            size_and_amount,
            to_persist: QueueWithIntervals::new(),
            garbage_collected: QueueWithIntervals::new(),
            loaded,
        };
        proof {
            lemma_count_range_is_dom_len(r.messages@, r.first_id(), r.end_id());
        }
        r
    }

    /// Inserts or overwrites a message under its id, marks the id as
    /// pending persist and ever loaded — and as live again, if it had
    /// been reclaimed — and returns the superseded message, if any,
    /// whose bytes leave the accounting so that nothing is counted
    /// twice.
    pub fn add_message(&mut self, message: MySbMessageContent) -> (r: Option<MySbMessageContent>)
        requires
            old(self).wf(),
            old(self).first_id() <= message.id < old(self).end_id(),
            bytes_range(old(self).messages@, old(self).first_id(), old(self).end_id())
                + message.content.len() <= usize::MAX,
        ensures
            final(self).wf(),
            final(self).messages@ == old(self).messages@.insert(message.id, message),
            final(self).to_persist@ == old(self).to_persist@.insert(message.id as int),
            final(self).loaded@ == old(self).loaded@.insert(message.id as int),
            final(self).garbage_collected@ == old(self).garbage_collected@.remove(
                message.id as int,
            ),
            final(self).sub_page_id == old(self).sub_page_id,
            final(self).created == old(self).created,
            r == (if old(self).messages@.contains_key(message.id) {
                Some(old(self).messages@[message.id])
            } else {
                Option::<MySbMessageContent>::None
            }),
    {
        proof {
            Self::lemma_range_fits(self.sub_page_id.0 as int);
            lemma_count_range_is_dom_len(self.messages@, self.first_id(), self.end_id());
            lemma_range_sums_bounds(self.messages@, self.first_id(), self.end_id());
            lemma_range_sums_insert(
                self.messages@,
                self.first_id(),
                self.end_id(),
                message.id,
                message,
            );
            if self.messages@.contains_key(message.id) {
                lemma_range_sums_member(
                    self.messages@,
                    self.first_id(),
                    self.end_id(),
                    message.id,
                );
            }
        }
        let id = message.id;
        let len = message.content.len();
        self.size_and_amount.added(len);
        self.to_persist.enqueue(id);
        self.loaded.enqueue(id);
        // Policy for an id that returns after collection: it becomes
        // live again, keeping collected ids and resident ids disjoint.
        let _ = self.garbage_collected.remove(id);
        if let Some(old_message) = self.messages.insert(id, message) {
            self.size_and_amount.removed(old_message.content.len());
            Some(old_message)
        } else {
            None
        }
    }

    /// Looks an id up: a resident message is handed out; otherwise the
    /// answer tells a reclaimed id apart from one never seen.
    pub fn get_message(&self, msg_id: i64) -> (r: GetMessageResult)
        requires
            self.wf(),
        ensures
            match r {
                GetMessageResult::Message(msg) => self.messages@.contains_key(msg_id) && *msg
                    == self.messages@[msg_id],
                GetMessageResult::GarbageCollected => !self.messages@.contains_key(msg_id)
                    && self.garbage_collected@.contains(msg_id as int),
                GetMessageResult::Missing => !self.messages@.contains_key(msg_id)
                    && !self.garbage_collected@.contains(msg_id as int),
            },
    {
        if let Some(msg) = self.messages.get(&msg_id) {
            return GetMessageResult::Message(msg);
        }
        if self.garbage_collected.has_message(msg_id) {
            return GetMessageResult::GarbageCollected;
        }
        GetMessageResult::Missing
    }

    /// The running totals: summed resident bytes and resident count.
    pub fn get_size_and_amount(&self) -> (r: &SizeAndAmount)
        requires
            self.wf(),
        ensures
            r.size == bytes_range(self.messages@, self.first_id(), self.end_id()),
            r.amount == self.messages@.dom().len(),
    {
        &self.size_and_amount
    }

    /// Number of resident messages.
    pub fn get_messages_amount(&self) -> (r: usize)
        ensures
            r == self.messages@.dom().len(),
    {
        self.messages.len()
    }

    /// The lowest resident message id, if any message is resident.
    fn get_first_message_id(&self) -> (r: Option<i64>)
        requires
            self.wf(),
        ensures
            match r {
                Some(k) => self.messages@.contains_key(k) && forall|j: i64|
                    #[trigger] self.messages@.contains_key(j) ==> k <= j,
                None => forall|j: i64| !self.messages@.contains_key(j),
            },
    {
        let first = self.sub_page_id.get_first_message_id();
        let end = self.sub_page_id.get_first_message_id_of_next_sub_page();
        let mut id = first;
        while id < end
            invariant
                self.wf(),
                first == self.first_id(),
                end == self.end_id(),
                first <= id <= end,
                forall|j: i64| first <= j < id ==> !(#[trigger] self.messages@.contains_key(j)),
            decreases end - id,
        {
            if self.messages.contains_key(&id) {
                return Some(id);
            }
            id = id + 1;
        }
        None
    }

    /// Collects the contiguous prefix of this sub-page's id space that
    /// lies below `min_message_id`, starting at the lowest resident id
    /// and never passing the sub-page's own upper bound. Every scanned
    /// id is recorded as collected, resident or not; resident entries
    /// in the window leave the map and the accounting.
    pub fn gc_messages(&mut self, min_message_id: i64)
        requires
            old(self).wf(),
        ensures
            final(self).wf(),
            gc_transition(*old(self), *final(self), min_message_id),
    {
        let ghost pre = *old(self);
        let first_message_id = self.get_first_message_id();
        if first_message_id.is_none() {
            return;
        }
        let first_message_id = first_message_id.unwrap();
        proof {
            Self::lemma_range_fits(self.sub_page_id.0 as int);
        }
        let end = self.sub_page_id.get_first_message_id_of_next_sub_page();
        let mut msg_id = first_message_id;
        while msg_id < end && msg_id < min_message_id
            invariant
                self.wf(),
                pre.wf(),
                self.sub_page_id == pre.sub_page_id,
                self.created == pre.created,
                self.to_persist == pre.to_persist,
                self.loaded == pre.loaded,
                end == pre.end_id(),
                pre.first_id() <= first_message_id <= msg_id <= end,
                msg_id <= min_message_id || msg_id == first_message_id,
                pre.messages@.contains_key(first_message_id),
                forall|k: i64| #[trigger] pre.messages@.contains_key(k) ==> first_message_id <= k,
                forall|k: i64|
                    #![trigger self.messages@.contains_key(k)]
                    #![trigger pre.messages@.contains_key(k)]
                    self.messages@.contains_key(k) <==> (pre.messages@.contains_key(k) && k
                        >= msg_id),
                forall|k: i64|
                    #[trigger] self.messages@.contains_key(k) ==> self.messages@[k]
                        == pre.messages@[k],
                forall|id: int|
                    #![trigger self.garbage_collected@.contains(id)]
                    #![trigger pre.garbage_collected@.contains(id)]
                    self.garbage_collected@.contains(id) <==> (pre.garbage_collected@.contains(id)
                        || (first_message_id <= id < msg_id)),
            decreases end - msg_id,
        {
            proof {
                Self::lemma_range_fits(self.sub_page_id.0 as int);
                if self.messages@.contains_key(msg_id) {
                    lemma_range_sums_member(
                        self.messages@,
                        self.first_id(),
                        self.end_id(),
                        msg_id,
                    );
                }
                lemma_range_sums_remove(self.messages@, self.first_id(), self.end_id(), msg_id);
            }
            self.garbage_collected.enqueue(msg_id);
            if let Some(message) = self.messages.remove(&msg_id) {
                self.size_and_amount.removed(message.content.len());
            } else {
                proof {
                    assert(self.messages@.remove(msg_id) =~= self.messages@);
                }
            }
            msg_id = msg_id + 1;
        }
        proof {
            assert(msg_id >= end || msg_id >= min_message_id);
            assert forall|k: i64|
                #![trigger self.messages@.contains_key(k)]
                #![trigger pre.messages@.contains_key(k)]
                self.messages@.contains_key(k) <==> (pre.messages@.contains_key(k) && k
                    >= min_message_id) by {
                if pre.messages@.contains_key(k) {
                    assert(first_message_id <= k < end);
                }
            }
            assert forall|id: int| self.garbage_collected@.contains(id) implies (
            pre.garbage_collected@.contains(id) || (id < min_message_id && id < pre.end_id()
                && exists|k: i64| #[trigger] pre.messages@.contains_key(k) && k <= id)) by {
                if !pre.garbage_collected@.contains(id) {
                    assert(first_message_id <= id < msg_id);
                    assert(pre.messages@.contains_key(first_message_id) && first_message_id
                        <= id);
                }
            }
            assert forall|id: int| (pre.garbage_collected@.contains(id) || (id < min_message_id
                && id < pre.end_id() && exists|k: i64|
                #[trigger] pre.messages@.contains_key(k) && k <= id)) implies self
                .garbage_collected@.contains(id) by {
                if !pre.garbage_collected@.contains(id) {
                    let k = choose|k: i64| #[trigger] pre.messages@.contains_key(k) && k <= id;
                    assert(first_message_id <= k);
                }
            }
        }
    }

    /// Acknowledges a durable flush of `message_id`: the id leaves the
    /// pending-persist set; an id not pending is a silent no-op.
    pub fn persisted(&mut self, message_id: i64)
        requires
            old(self).wf(),
        ensures
            final(self).wf(),
            final(self).to_persist@ == old(self).to_persist@.remove(message_id as int),
            final(self).messages@ == old(self).messages@,
            final(self).garbage_collected@ == old(self).garbage_collected@,
            final(self).loaded@ == old(self).loaded@,
            final(self).sub_page_id == old(self).sub_page_id,
            final(self).created == old(self).created,
    {
        let _ = self.to_persist.remove(message_id);
    }
}

/// Garbage collection is idempotent: a second run with the same
/// threshold finds nothing below it and leaves every observable part
/// of the sub-page as the first run left it.
pub proof fn lemma_gc_idempotent(s0: SubPage, s1: SubPage, s2: SubPage, min_message_id: i64)
    requires
        gc_transition(s0, s1, min_message_id),
        gc_transition(s1, s2, min_message_id),
    ensures
        s2.messages@ =~= s1.messages@,
        s2.garbage_collected@ =~= s1.garbage_collected@,
        s2.to_persist == s1.to_persist,
        s2.loaded == s1.loaded,
        s2.created == s1.created,
        s2.sub_page_id == s1.sub_page_id,
{
    assert(s1.end_id() == s0.end_id());
    assert forall|id: int| s2.garbage_collected@.contains(id) implies s1.garbage_collected@.contains(
        id,
    ) by {
        if !s1.garbage_collected@.contains(id) {
            let k = choose|k: i64| #[trigger] s1.messages@.contains_key(k) && k <= id;
            assert(k >= min_message_id);
        }
    }
    assert forall|k: i64| s2.messages@.contains_key(k) implies s1.messages@.contains_key(k)
        && s2.messages@[k] == s1.messages@[k] by {}
    assert forall|k: i64| s1.messages@.contains_key(k) implies s2.messages@.contains_key(k) by {
        assert(k >= min_message_id);
    }
}

/// After one garbage collection run, every id of the scanned window —
/// at or above the lowest previously resident id, below the threshold,
/// within the sub-page's bound — is recorded as collected and is not
/// resident, so a lookup answers Reclaimed there, never Missing; and
/// every id at or above the threshold is untouched: same residency,
/// same content, same collected mark.
pub proof fn lemma_gc_reclaims_window(s0: SubPage, s1: SubPage, min_message_id: i64, id: i64)
    requires
        s0.wf(),
        gc_transition(s0, s1, min_message_id),
    ensures
        (id < min_message_id && (id as int) < s0.end_id() && exists|k: i64|
            #[trigger] s0.messages@.contains_key(k) && k <= id) ==> (s1.garbage_collected@.contains(
            id as int,
        ) && !s1.messages@.contains_key(id)),
        id >= min_message_id ==> (s1.messages@.contains_key(id) == s0.messages@.contains_key(id)
            && (s0.messages@.contains_key(id) ==> s1.messages@[id] == s0.messages@[id])
            && s1.garbage_collected@.contains(id as int) == s0.garbage_collected@.contains(
            id as int,
        )),
{
}

/// The accounting never drifts from the resident map: in every
/// well-formed sub-page — as a fresh one is, and as every operation
/// leaves it — the count equals the number of distinct resident ids
/// and the byte total equals the summed length of the contents
/// currently resident, superseded entries excluded.
pub proof fn lemma_accounting_in_lock_step(s: SubPage)
    requires
        s.wf(),
    ensures
        s.size_and_amount.amount == s.messages@.dom().len(),
        s.size_and_amount.size == bytes_range(s.messages@, s.first_id(), s.end_id()),
{
}

/// Overwriting a resident id keeps the count as it was, and the byte
/// total afterwards reflects the new content only: the superseded
/// entry's bytes are gone, nothing is counted twice.
pub proof fn lemma_overwrite_accounting(s0: SubPage, s1: SubPage, message: MySbMessageContent)
    requires
        s0.wf(),
        s1.wf(),
        s0.messages@.contains_key(message.id),
        s1.sub_page_id == s0.sub_page_id,
        s1.messages@ == s0.messages@.insert(message.id, message),
    ensures
        s1.size_and_amount.amount == s0.size_and_amount.amount,
        s1.size_and_amount.size == s0.size_and_amount.size - msg_size(s0.messages@[message.id])
            + msg_size(message),
{
    SubPage::lemma_range_fits(s0.sub_page_id.0 as int);
    lemma_range_sums_insert(s0.messages@, s0.first_id(), s0.end_id(), message.id, message);
    assert(s1.messages@.dom() =~= s0.messages@.dom());
}

/// Acknowledging a persisted id twice equals acknowledging it once:
/// taking an id out of a set of pending ids is idempotent.
pub proof fn lemma_persisted_idempotent(pending: Set<int>, id: int)
    ensures
        pending.remove(id).remove(id) =~= pending.remove(id),
{
}

} // verus!
