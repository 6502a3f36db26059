use crate::message::MySbMessageContent;
use crate::messages_page::apply_batch;
use crate::messages_page::batch_bytes;
use crate::messages_page::MessagesPage;
use crate::page_id::spec_first_message_id;
use crate::page_id::PageId;
use crate::page_id::MAX_PAGE_ID;
use crate::page_id::MESSAGES_IN_PAGE;
use crate::range_sums::bytes_range;
use vstd::prelude::*;
use vstd::set_lib::lemma_int_range;
use vstd::set_lib::set_int_range;

verus! {

broadcast use vstd::std_specs::btree::group_btree_axioms, vstd::laws_cmp::group_laws_cmp;

/// Monitoring snapshot of one resident page: its id, summed resident
/// bytes, resident count, pending-persist count and flush flag.
pub struct PageInfo {
    pub page_no: PageId,
    pub page_size: usize,
    pub count: usize,
    pub persist_size: i64,
    pub is_being_persisted: bool,
}

/// The monitoring snapshot that describes page `p`.
pub open spec fn spec_page_info(p: MessagesPage) -> PageInfo {
    PageInfo {
        page_no: p.page_id,
        page_size: p.size_and_amount.size,
        count: p.messages@.dom().len() as usize,
        persist_size: p.to_be_persisted@.len() as i64,
        is_being_persisted: p.is_being_persisted,
    }
}

/// Summed pending-persist backlog over a sequence of pages.
pub open spec fn total_pending(s: Seq<MessagesPage>) -> int
    decreases s.len(),
{
    if s.len() == 0 {
        0
    } else {
        total_pending(s.drop_last()) + s.last().to_be_persisted@.len()
    }
}

/// All pending ids of a sequence of pages, as one set.
spec fn union_pending(s: Seq<MessagesPage>) -> Set<int>
    decreases s.len(),
{
    if s.len() == 0 {
        Set::empty()
    } else {
        union_pending(s.drop_last()) + s.last().to_be_persisted@
    }
}

/// A message id lies in the nominal range of only one page.
proof fn lemma_id_in_one_page(id: int, p: int, q: int)
    requires
        0 <= p,
        0 <= q,
        spec_first_message_id(p) <= id < spec_first_message_id(p) + MESSAGES_IN_PAGE,
        spec_first_message_id(q) <= id < spec_first_message_id(q) + MESSAGES_IN_PAGE,
    ensures
        p == q,
{
    let n = MESSAGES_IN_PAGE as int;
    vstd::arithmetic::div_mod::lemma_div_multiples_vanish_fancy(p, id - p * n, n);
    vstd::arithmetic::div_mod::lemma_div_multiples_vanish_fancy(q, id - q * n, n);
}

/// Pages with distinct ids have disjoint pending sets, so the summed
/// backlog equals the cardinality of all pending ids taken together.
proof fn lemma_union_pending(s: Seq<MessagesPage>)
    requires
        forall|i: int| 0 <= i < s.len() ==> (#[trigger] s[i]).wf(),
        forall|i: int, j: int|
            0 <= i < j < s.len() ==> (#[trigger] s[i]).page_id.0 != (#[trigger] s[j]).page_id.0,
    ensures
        union_pending(s).finite(),
        union_pending(s).len() == total_pending(s),
        forall|id: int|
            #[trigger] union_pending(s).contains(id) ==> exists|i: int|
                0 <= i < s.len() && (#[trigger] s[i]).first_id() <= id < s[i].end_id(),
    decreases s.len(),
{
    if s.len() > 0 {
        let n = s.len() as int;
        let rest = s.drop_last();
        let last = s.last();
        assert(forall|i: int| 0 <= i < rest.len() ==> rest[i] == s[i]);
        lemma_union_pending(rest);
        assert forall|id: int| union_pending(rest).contains(id) implies !last.to_be_persisted@.contains(
            id,
        ) by {
            let i = choose|i: int|
                0 <= i < rest.len() && (#[trigger] rest[i]).first_id() <= id < rest[i].end_id();
            if last.to_be_persisted@.contains(id) {
                lemma_id_in_one_page(id, s[i].page_id.0 as int, last.page_id.0 as int);
            }
        }
        assert(union_pending(rest).disjoint(last.to_be_persisted@));
        vstd::set_lib::lemma_set_disjoint_lens(union_pending(rest), last.to_be_persisted@);
        assert forall|id: int| union_pending(s).contains(id) implies exists|i: int|
            0 <= i < s.len() && (#[trigger] s[i]).first_id() <= id < s[i].end_id() by {
            if union_pending(rest).contains(id) {
                let i = choose|i: int|
                    0 <= i < rest.len() && (#[trigger] rest[i]).first_id() <= id
                        < rest[i].end_id();
                assert(s[i].first_id() <= id < s[i].end_id());
            } else {
                assert(last.to_be_persisted@.contains(id));
                assert(s[n - 1].first_id() <= id < s[n - 1].end_id());
            }
        }
    }
}

/// Every pending id is a valid message id, so the summed backlog of
/// any well-formed set of pages fits in an `i64`.
proof fn lemma_total_pending_bounds(s: Seq<MessagesPage>)
    requires
        forall|i: int| 0 <= i < s.len() ==> (#[trigger] s[i]).wf(),
        forall|i: int, j: int|
            0 <= i < j < s.len() ==> (#[trigger] s[i]).page_id.0 != (#[trigger] s[j]).page_id.0,
    ensures
        0 <= total_pending(s) <= i64::MAX,
{
    lemma_union_pending(s);
    let whole = union_pending(s);
    let universe = set_int_range(0, i64::MAX as int);
    lemma_int_range(0, i64::MAX as int);
    assert forall|id: int| whole.contains(id) implies universe.contains(id) by {
        let i = choose|i: int|
            0 <= i < s.len() && (#[trigger] s[i]).first_id() <= id < s[i].end_id();
        MessagesPage::lemma_range_fits(s[i].page_id.0 as int);
    }
    vstd::set_lib::lemma_len_subset(whole, universe);
}

/// The per-topic registry of resident pages, keyed by page id; the
/// sole entry point for ingestion, eviction and restore.
pub struct MessagesPagesCache {
    pub pages: Vec<MessagesPage>,
}

impl MessagesPagesCache {
    /// Internal consistency: every resident page is well formed and no
    /// page id occurs twice.
    pub open spec fn wf(self) -> bool {
        &&& forall|i: int| 0 <= i < self.pages@.len() ==> (#[trigger] self.pages@[i]).wf()
        &&& forall|i: int, j: int|
            0 <= i < j < self.pages@.len() ==> (#[trigger] self.pages@[i]).page_id.0 != (
            #[trigger] self.pages@[j]).page_id.0
    }

    /// Whether a page with this id is resident.
    pub open spec fn spec_has_page(self, page_id: i64) -> bool {
        exists|i: int|
            0 <= i < self.pages@.len() && (#[trigger] self.pages@[i]).page_id.0 == page_id
    }

    /// The resident page with this id.
    pub open spec fn spec_page(self, page_id: i64) -> MessagesPage {
        self.pages@[choose|i: int|
            0 <= i < self.pages@.len() && (#[trigger] self.pages@[i]).page_id.0 == page_id]
    }

    /// With distinct page ids, the page found at any index is the one
    /// `spec_page` names for its id.
    pub proof fn lemma_page_at(&self, i: int)
        requires
            self.wf(),
            0 <= i < self.pages@.len(),
        ensures
            self.spec_has_page(self.pages@[i].page_id.0),
            self.spec_page(self.pages@[i].page_id.0) == self.pages@[i],
    {
        let q = self.pages@[i].page_id.0;
        assert(self.spec_has_page(q));
        let c = choose|c: int|
            0 <= c < self.pages@.len() && (#[trigger] self.pages@[c]).page_id.0 == q;
        if c != i {
            assert(self.pages@[c].page_id.0 != self.pages@[i].page_id.0);
        }
    }

    pub fn new() -> (r: Self)
        ensures
            r.wf(),
            r.pages@.len() == 0,
            forall|q: i64| !r.spec_has_page(q),
    {
        Self { pages: Vec::new() }
    }

    /// Index of the resident page with this id, if one is resident.
    fn find_index(&self, page_id: i64) -> (r: Option<usize>)
        ensures
            match r {
                Some(i) => i < self.pages@.len() && self.pages@[i as int].page_id.0 == page_id,
                None => forall|i: int|
                    0 <= i < self.pages@.len() ==> (#[trigger] self.pages@[i]).page_id.0
                        != page_id,
            },
    {
        let mut idx: usize = 0;
        while idx < self.pages.len()
            invariant
                0 <= idx <= self.pages@.len(),
                forall|i: int|
                    0 <= i < idx ==> (#[trigger] self.pages@[i]).page_id.0 != page_id,
            decreases self.pages@.len() - idx,
        {
            if self.pages[idx].page_id.get_value() == page_id {
                return Some(idx);
            }
            idx = idx + 1;
        }
        None
    }

    /// The sole ingestion entry point: appends the batch to the page
    /// that owns the given id range, creating the page lazily on the
    /// first write for an id never seen.
    pub fn new_messages(&mut self, page_id: PageId, msgs: Vec<MySbMessageContent>)
        requires
            old(self).wf(),
            0 <= page_id.0 <= MAX_PAGE_ID,
            forall|j: int|
                0 <= j < msgs@.len() ==> spec_first_message_id(page_id.0 as int) <= (
                #[trigger] msgs@[j]).id < spec_first_message_id(page_id.0 as int)
                    + MESSAGES_IN_PAGE,
            (if old(self).spec_has_page(page_id.0) {
                bytes_range(
                    old(self).spec_page(page_id.0).messages@,
                    old(self).spec_page(page_id.0).first_id(),
                    old(self).spec_page(page_id.0).end_id(),
                )
            } else {
                0
            }) + batch_bytes(msgs@) <= usize::MAX,
        ensures
            final(self).wf(),
            final(self).spec_has_page(page_id.0),
            final(self).spec_page(page_id.0).page_id == page_id,
            final(self).spec_page(page_id.0).messages@ == apply_batch(
                if old(self).spec_has_page(page_id.0) {
                    old(self).spec_page(page_id.0).messages@
                } else {
                    Map::<i64, MySbMessageContent>::empty()
                },
                msgs@,
            ),
            forall|id: int|
                #[trigger] final(self).spec_page(page_id.0).to_be_persisted@.contains(id) <==> ((
                old(self).spec_has_page(page_id.0) && old(self).spec_page(
                    page_id.0,
                ).to_be_persisted@.contains(id)) || exists|j: int|
                    0 <= j < msgs@.len() && (#[trigger] msgs@[j]).id == id),
            final(self).spec_page(page_id.0).is_being_persisted == (if old(self).spec_has_page(
                page_id.0,
            ) {
                old(self).spec_page(page_id.0).is_being_persisted
            } else {
                false
            }),
            forall|q: i64|
                q != page_id.0 ==> (#[trigger] final(self).spec_has_page(q) == old(
                    self,
                ).spec_has_page(q) && (old(self).spec_has_page(q) ==> final(self).spec_page(q)
                    == old(self).spec_page(q))),
            final(self).pages@.len() == old(self).pages@.len() + (if old(self).spec_has_page(
                page_id.0,
            ) {
                0int
            } else {
                1int
            }),
    {
        let ghost s0 = self.pages@;
        let idx_opt = self.find_index(page_id.get_value());
        let mut page: MessagesPage;
        match idx_opt {
            Some(i) => {
                proof {
                    self.lemma_page_at(i as int);
                }
                page = self.pages.remove(i);
            },
            None => {
                page = MessagesPage::new(page_id);
            },
        }
        let ghost removed = self.pages@;
        proof {
            if idx_opt is None {
                crate::range_sums::lemma_range_sums_none(
                    page.messages@,
                    page.first_id(),
                    page.end_id(),
                );
            }
        }
        page.new_messages(msgs);
        self.pages.push(page);
        proof {
            let s1 = self.pages@;
            let n1 = s1.len() as int;
            assert(s1[n1 - 1] == page);
            assert(forall|j: int| 0 <= j < removed.len() ==> s1[j] == removed[j]);
            match idx_opt {
                Some(i) => {
                    assert(forall|j: int| 0 <= j < i ==> removed[j] == s0[j]);
                    assert(forall|j: int|
                        i <= j < removed.len() ==> removed[j] == s0[j + 1]);
                },
                None => {
                    assert(removed == s0);
                },
            }
            assert(self.wf());
            self.lemma_page_at(n1 - 1);
            assert forall|q: i64| q != page_id.0 implies (#[trigger] self.spec_has_page(q)
                == old(self).spec_has_page(q) && (old(self).spec_has_page(q)
                ==> self.spec_page(q) == old(self).spec_page(q))) by {
                if old(self).spec_has_page(q) {
                    let j = choose|j: int|
                        0 <= j < s0.len() && (#[trigger] s0[j]).page_id.0 == q;
                    old(self).lemma_page_at(j);
                    let j2: int = match idx_opt {
                        Some(i) => if j < i {
                            j
                        } else {
                            j - 1
                        },
                        None => j,
                    };
                    assert(s1[j2] == s0[j]);
                    self.lemma_page_at(j2);
                }
                if self.spec_has_page(q) {
                    let j = choose|j: int|
                        0 <= j < s1.len() && (#[trigger] s1[j]).page_id.0 == q;
                    if j < removed.len() {
                        let j2: int = match idx_opt {
                            Some(i) => if j < i {
                                j
                            } else {
                                j + 1
                            },
                            None => j,
                        };
                        assert(s0[j2] == s1[j]);
                        assert(old(self).spec_has_page(q));
                    }
                }
            }
        }
    }

    /// Looks a page up by id; no side effects.
    pub fn get_page(&self, page_id: PageId) -> (r: Option<&MessagesPage>)
        requires
            self.wf(),
        ensures
            match r {
                Some(p) => self.spec_has_page(page_id.0) && *p == self.spec_page(page_id.0),
                None => !self.spec_has_page(page_id.0),
            },
    {
        match self.find_index(page_id.get_value()) {
            Some(i) => {
                proof {
                    self.lemma_page_at(i as int);
                }
                Some(&self.pages[i])
            },
            None => None,
        }
    }

    /// Whether a page with this id is resident; no side effects.
    pub fn has_page(&self, page_id: &PageId) -> (r: bool)
        ensures
            r == self.spec_has_page(page_id.0),
    {
        self.find_index(page_id.get_value()).is_some()
    }

    /// Monitoring snapshots of every resident page; the order is a
    /// storage detail and not to be relied upon.
    pub fn get_pages_info(&self) -> (r: Vec<PageInfo>)
        requires
            self.wf(),
        ensures
            r@.len() == self.pages@.len(),
            forall|i: int| 0 <= i < r@.len() ==> r@[i] == spec_page_info(self.pages@[i]),
    {
        let mut result: Vec<PageInfo> = Vec::new();
        let mut idx: usize = 0;
        while idx < self.pages.len()
            invariant
                self.wf(),
                0 <= idx <= self.pages@.len(),
                result@.len() == idx,
                forall|i: int| 0 <= i < idx ==> result@[i] == spec_page_info(self.pages@[i]),
            decreases self.pages@.len() - idx,
        {
            let page = &self.pages[idx];
            result.push(
                PageInfo {
                    page_no: page.page_id,
                    page_size: page.size_and_amount.size,
                    count: page.messages.len(),
                    persist_size: page.to_be_persisted.len(),
                    is_being_persisted: page.is_being_persisted,
                },
            );
            idx = idx + 1;
        }
        result
    }

    /// References to every resident page, in storage order; a live
    /// view for iteration, not a copy of the pages.
    pub fn get_pages(&self) -> (r: Vec<&MessagesPage>)
        ensures
            r@.len() == self.pages@.len(),
            forall|i: int| 0 <= i < r@.len() ==> *r@[i] == self.pages@[i],
    {
        let mut result: Vec<&MessagesPage> = Vec::new();
        let mut idx: usize = 0;
        while idx < self.pages.len()
            invariant
                0 <= idx <= self.pages@.len(),
                result@.len() == idx,
                forall|i: int| 0 <= i < idx ==> *result@[i] == self.pages@[i],
            decreases self.pages@.len() - idx,
        {
            result.push(&self.pages[idx]);
            idx = idx + 1;
        }
        result
    }

    /// Evicts a page wholesale; absent ids are a no-op.
    pub fn remove_page(&mut self, page_id: &PageId)
        requires
            old(self).wf(),
        ensures
            final(self).wf(),
            !final(self).spec_has_page(page_id.0),
            forall|q: i64|
                q != page_id.0 ==> (#[trigger] final(self).spec_has_page(q) == old(
                    self,
                ).spec_has_page(q) && (old(self).spec_has_page(q) ==> final(self).spec_page(q)
                    == old(self).spec_page(q))),
    {
        let ghost s0 = self.pages@;
        match self.find_index(page_id.get_value()) {
            Some(i) => {
                let _ = self.pages.remove(i);
                proof {
                    let s1 = self.pages@;
                    assert(forall|j: int| 0 <= j < i ==> s1[j] == s0[j]);
                    assert(forall|j: int| i <= j < s1.len() ==> s1[j] == s0[j + 1]);
                    assert forall|q: i64| q != page_id.0 implies (#[trigger] self.spec_has_page(
                        q,
                    ) == old(self).spec_has_page(q) && (old(self).spec_has_page(q) ==> self
                        .spec_page(q) == old(self).spec_page(q))) by {
                        if old(self).spec_has_page(q) {
                            let j = choose|j: int|
                                0 <= j < s0.len() && (#[trigger] s0[j]).page_id.0 == q;
                            old(self).lemma_page_at(j);
                            let j2: int = if j < i {
                                j
                            } else {
                                j - 1
                            };
                            assert(s1[j2] == s0[j]);
                            self.lemma_page_at(j2);
                        }
                        if self.spec_has_page(q) {
                            let j = choose|j: int|
                                0 <= j < s1.len() && (#[trigger] s1[j]).page_id.0 == q;
                            let j2: int = if j < i {
                                j
                            } else {
                                j + 1
                            };
                            assert(s0[j2] == s1[j]);
                            assert(old(self).spec_has_page(q));
                        }
                    }
                    assert forall|j: int|
                        0 <= j < s1.len() implies (#[trigger] s1[j]).page_id.0
                        != page_id.0 by {
                        if j < i {
                        } else {
                            assert(s1[j] == s0[j + 1]);
                        }
                    }
                }
            },
            None => {
            },
        }
    }

    /// Inserts or replaces a page under its own id, used at startup
    /// and recovery.
    pub fn restore_page(&mut self, page: MessagesPage)
        requires
            old(self).wf(),
            page.wf(),
        ensures
            final(self).wf(),
            final(self).spec_has_page(page.page_id.0),
            final(self).spec_page(page.page_id.0) == page,
            forall|q: i64|
                q != page.page_id.0 ==> (#[trigger] final(self).spec_has_page(q) == old(
                    self,
                ).spec_has_page(q) && (old(self).spec_has_page(q) ==> final(self).spec_page(q)
                    == old(self).spec_page(q))),
    {
        let ghost s0 = self.pages@;
        let page_value = page.page_id.get_value();
        let idx_opt = self.find_index(page_value);
        if let Some(i) = idx_opt {
            let _ = self.pages.remove(i);
        }
        let ghost removed = self.pages@;
        self.pages.push(page);
        proof {
            let s1 = self.pages@;
            let n1 = s1.len() as int;
            assert(s1[n1 - 1] == page);
            assert(forall|j: int| 0 <= j < removed.len() ==> s1[j] == removed[j]);
            match idx_opt {
                Some(i) => {
                    assert(forall|j: int| 0 <= j < i ==> removed[j] == s0[j]);
                    assert(forall|j: int|
                        i <= j < removed.len() ==> removed[j] == s0[j + 1]);
                },
                None => {
                    assert(removed == s0);
                },
            }
            assert(self.wf());
            self.lemma_page_at(n1 - 1);
            assert forall|q: i64| q != page.page_id.0 implies (#[trigger] self.spec_has_page(q)
                == old(self).spec_has_page(q) && (old(self).spec_has_page(q) ==> self.spec_page(
                q,
            ) == old(self).spec_page(q))) by {
                if old(self).spec_has_page(q) {
                    let j = choose|j: int|
                        0 <= j < s0.len() && (#[trigger] s0[j]).page_id.0 == q;
                    old(self).lemma_page_at(j);
                    let j2: int = match idx_opt {
                        Some(i) => if j < i {
                            j
                        } else {
                            j - 1
                        },
                        None => j,
                    };
                    assert(s1[j2] == s0[j]);
                    self.lemma_page_at(j2);
                }
                if self.spec_has_page(q) {
                    let j = choose|j: int|
                        0 <= j < s1.len() && (#[trigger] s1[j]).page_id.0 == q;
                    if j < removed.len() {
                        let j2: int = match idx_opt {
                            Some(i) => if j < i {
                                j
                            } else {
                                j + 1
                            },
                            None => j,
                        };
                        assert(s0[j2] == s1[j]);
                        assert(old(self).spec_has_page(q));
                    }
                }
            }
        }
    }

    /// The aggregate persist backlog over every resident page: the
    /// signal external flush scheduling uses for backpressure.
    pub fn get_persist_queue_size(&self) -> (r: i64)
        requires
            self.wf(),
        ensures
            r == total_pending(self.pages@),
    {
        let ghost s = self.pages@;
        let mut result: i64 = 0;
        let mut idx: usize = 0;
        while idx < self.pages.len()
            invariant
                self.wf(),
                s == self.pages@,
                0 <= idx <= s.len(),
                result == total_pending(s.take(idx as int)),
                0 <= result <= i64::MAX,
            decreases s.len() - idx,
        {
            proof {
                let t = s.take(idx as int + 1);
                assert(forall|i: int| 0 <= i < t.len() ==> t[i] == s[i]);
                lemma_total_pending_bounds(t);
                assert(t.drop_last() =~= s.take(idx as int));
                assert(t.last() == s[idx as int]);
            }
            result = result + self.pages[idx].to_be_persisted.len();
            idx = idx + 1;
        }
        proof {
            assert(s.take(s.len() as int) =~= s);
        }
        result
    }
}

} // verus!
