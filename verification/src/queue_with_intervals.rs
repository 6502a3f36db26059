use vstd::prelude::*;
use vstd::set_lib::lemma_int_range;
use vstd::set_lib::set_int_range;

verus! {

/// One closed run of message ids, both endpoints included.
#[derive(Debug, Clone, Copy, PartialEq, Eq, Structural)]
pub struct IndexRange {
    pub from_id: i64,
    pub to_id: i64,
}

/// Whether `v` lies inside one of the intervals of `s`.
pub open spec fn seq_has(s: Seq<IndexRange>, v: int) -> bool {
    exists|i: int| 0 <= i < s.len() && (#[trigger] s[i]).from_id <= v <= s[i].to_id
}

/// The canonical shape of the interval list: every interval is a
/// non-empty run of non-negative ids, and the list is sorted with a
/// gap of at least one id between neighbours, so no two intervals
/// could be merged further.
pub open spec fn intervals_wf(s: Seq<IndexRange>) -> bool {
    &&& forall|i: int|
        0 <= i < s.len() ==> 0 <= (#[trigger] s[i]).from_id <= s[i].to_id < i64::MAX
    &&& forall|i: int, j: int|
        0 <= i < j < s.len() ==> (#[trigger] s[i]).to_id + 1 < (#[trigger] s[j]).from_id
}

/// Number of ids covered by the interval list.
pub open spec fn intervals_total(s: Seq<IndexRange>) -> int
    decreases s.len(),
{
    if s.len() == 0 {
        0
    } else {
        intervals_total(s.drop_last()) + (s.last().to_id - s.last().from_id + 1)
    }
}

/// Compact set of message ids, stored as ordered non-overlapping
/// closed intervals with merge-on-insert; sequential traffic keeps the
/// list at one interval per contiguous run. Serves as pending-persist,
/// garbage-collected and ever-loaded tracking without per-id cost.
#[derive(Debug, Clone)]
pub struct QueueWithIntervals {
    intervals: Vec<IndexRange>,
}

impl View for QueueWithIntervals {
    type V = Set<int>;

    closed spec fn view(&self) -> Set<int> {
        Set::new(|v: int| seq_has(self.intervals@, v))
    }
}

/// The ids covered by a well-formed interval list form a finite set of
/// exactly `intervals_total` elements.
proof fn lemma_intervals_card(s: Seq<IndexRange>)
    requires
        intervals_wf(s),
    ensures
        Set::new(|v: int| seq_has(s, v)).finite(),
        Set::new(|v: int| seq_has(s, v)).len() == intervals_total(s),
        intervals_total(s) >= 0,
    decreases s.len(),
{
    let whole = Set::new(|v: int| seq_has(s, v));
    if s.len() == 0 {
        assert(whole =~= Set::<int>::empty());
    } else {
        let n = s.len() as int;
        let rest = s.drop_last();
        let last_set = set_int_range(s.last().from_id as int, s.last().to_id + 1);
        let rest_set = Set::new(|v: int| seq_has(rest, v));
        lemma_intervals_card(rest);
        lemma_int_range(s.last().from_id as int, s.last().to_id + 1);
        assert forall|v: int| seq_has(s, v) implies rest_set.contains(v) || last_set.contains(
            v,
        ) by {
            let i = choose|i: int|
                0 <= i < s.len() && (#[trigger] s[i]).from_id <= v <= s[i].to_id;
            if i < n - 1 {
                assert(rest[i] == s[i]);
            }
        }
        assert forall|v: int| rest_set.contains(v) implies seq_has(s, v) by {
            let i = choose|i: int|
                0 <= i < rest.len() && (#[trigger] rest[i]).from_id <= v <= rest[i].to_id;
            assert(s[i] == rest[i]);
        }
        assert(whole =~= rest_set + last_set);
        assert forall|v: int| rest_set.contains(v) implies !last_set.contains(v) by {
            let i = choose|i: int|
                0 <= i < rest.len() && (#[trigger] rest[i]).from_id <= v <= rest[i].to_id;
            assert(s[i].to_id + 1 < s[n - 1].from_id);
        }
        assert(rest_set.disjoint(last_set));
        vstd::set_lib::lemma_set_disjoint_lens(rest_set, last_set);
    }
}

/// Every id of a well-formed interval list lies in `[0, i64::MAX)`,
/// so the list never covers more than `i64::MAX` ids.
proof fn lemma_intervals_total_bound(s: Seq<IndexRange>)
    requires
        intervals_wf(s),
    ensures
        0 <= intervals_total(s) <= i64::MAX,
{
    lemma_intervals_card(s);
    let whole = Set::new(|v: int| seq_has(s, v));
    let universe = set_int_range(0, i64::MAX as int);
    lemma_int_range(0, i64::MAX as int);
    assert(whole.subset_of(universe));
    vstd::set_lib::lemma_len_subset(whole, universe);
}

impl QueueWithIntervals {
    /// The interval list is in its canonical shape.
    pub closed spec fn wf(&self) -> bool {
        intervals_wf(self.intervals@)
    }

    pub fn new() -> (r: Self)
        ensures
            r.wf(),
            r@ == Set::<int>::empty(),
    {
        let r = Self { intervals: Vec::new() };
        proof {
            assert(r@ =~= Set::<int>::empty());
        }
        r
    }

    /// Adds `message_id` to the set; present ids are kept as they are.
    #[verifier::rlimit(50)]
    pub fn enqueue(&mut self, message_id: i64)
        requires
            old(self).wf(),
            0 <= message_id < i64::MAX,
        ensures
            final(self).wf(),
            final(self)@ == old(self)@.insert(message_id as int),
    {
        let ghost s0 = self.intervals@;
        let v = message_id;
        let mut idx: usize = 0;
        while idx < self.intervals.len() && self.intervals[idx].to_id + 1 < v
            invariant
                self.intervals@ == s0,
                intervals_wf(s0),
                0 <= message_id < i64::MAX,
                v == message_id,
                0 <= idx <= s0.len(),
                forall|j: int| 0 <= j < idx ==> (#[trigger] s0[j]).to_id + 1 < v,
            decreases s0.len() - idx,
        {
            idx = idx + 1;
        }
        if idx == self.intervals.len() {
            self.intervals.push(IndexRange { from_id: v, to_id: v });
            proof {
                let s1 = self.intervals@;
                assert(forall|j: int| 0 <= j < s0.len() ==> s1[j] == s0[j]);
                assert(final(self)@ =~= old(self)@.insert(v as int)) by {
                    assert(s1[s0.len() as int].from_id <= v <= s1[s0.len() as int].to_id);
                    assert forall|w: int| seq_has(s1, w) && w != v implies seq_has(s0, w) by {
                        let i = choose|i: int|
                            0 <= i < s1.len() && (#[trigger] s1[i]).from_id <= w <= s1[i].to_id;
                        assert(i < s0.len());
                    }
                }
            }
        } else {
            let r = *(&self.intervals[idx]);
            if v > r.to_id {
                // v is exactly to_id + 1: extend this run to the right,
                // merging with the next run when the gap closes.
                if idx + 1 < self.intervals.len() && self.intervals[idx + 1].from_id == v + 1 {
                    let next_to = self.intervals[idx + 1].to_id;
                    self.intervals[idx].to_id = next_to;
                    self.intervals.remove(idx + 1);
                    proof {
                        let s1 = self.intervals@;
                        assert(forall|j: int| 0 <= j < idx ==> s1[j] == s0[j]);
                        assert(forall|j: int|
                            idx < j < s1.len() ==> s1[j] == s0[j + 1]);
                        assert(s1[idx as int].from_id == s0[idx as int].from_id);
                        assert(s1[idx as int].to_id == s0[idx as int + 1].to_id);
                        assert(intervals_wf(s1));
                        assert(final(self)@ =~= old(self)@.insert(v as int)) by {
                            assert forall|w: int| seq_has(s1, w) implies seq_has(s0, w) || w
                                == v by {
                                let i = choose|i: int|
                                    0 <= i < s1.len() && (#[trigger] s1[i]).from_id <= w
                                        <= s1[i].to_id;
                                if i == idx {
                                    if w <= s0[idx as int].to_id {
                                    } else if w >= s0[idx as int + 1].from_id {
                                    } else {
                                        assert(s0[idx as int].to_id < w < s0[idx as int
                                            + 1].from_id);
                                        assert(w == v);
                                    }
                                } else if i > idx {
                                    assert(s0[i + 1] == s1[i]);
                                }
                            }
                            assert forall|w: int| seq_has(s0, w) || w == v implies seq_has(
                                s1,
                                w,
                            ) by {
                                if w == v {
                                    assert(s1[idx as int].from_id <= w <= s1[idx as int].to_id);
                                } else {
                                    let i = choose|i: int|
                                        0 <= i < s0.len() && (#[trigger] s0[i]).from_id <= w
                                            <= s0[i].to_id;
                                    if i < idx {
                                        assert(s1[i] == s0[i]);
                                    } else if i == idx || i == idx + 1 {
                                        assert(s1[idx as int].from_id <= w <= s1[
                                            idx as int].to_id);
                                    } else {
                                        assert(s1[i - 1] == s0[i]);
                                    }
                                }
                            }
                        }
                    }
                } else {
                    self.intervals[idx].to_id = v;
                    proof {
                        let s1 = self.intervals@;
                        assert(intervals_wf(s1)) by {
                            assert forall|j: int|
                                idx < j < s1.len() implies (#[trigger] s1[
                                idx as int]).to_id + 1 < s1[j].from_id by {
                                if j == idx + 1 {
                                    assert(s0[idx as int].to_id + 1 < s0[j].from_id);
                                    assert(s0[j].from_id != v + 1);
                                }
                            }
                        }
                        assert(final(self)@ =~= old(self)@.insert(v as int)) by {
                            assert forall|w: int| seq_has(s1, w) implies seq_has(s0, w) || w
                                == v by {
                                let i = choose|i: int|
                                    0 <= i < s1.len() && (#[trigger] s1[i]).from_id <= w
                                        <= s1[i].to_id;
                                if i == idx && w != v {
                                    assert(s0[i].from_id <= w <= s0[i].to_id);
                                }
                            }
                            assert forall|w: int| seq_has(s0, w) || w == v implies seq_has(
                                s1,
                                w,
                            ) by {
                                if w == v {
                                    assert(s1[idx as int].from_id <= w <= s1[idx as int].to_id);
                                } else {
                                    let i = choose|i: int|
                                        0 <= i < s0.len() && (#[trigger] s0[i]).from_id <= w
                                            <= s0[i].to_id;
                                    if i == idx {
                                        assert(s1[i].from_id <= w <= s1[i].to_id);
                                    } else {
                                        assert(s1[i] == s0[i]);
                                    }
                                }
                            }
                        }
                    }
                }
            } else if v >= r.from_id {
                // Already covered: nothing to do.
                proof {
                    assert(seq_has(s0, v as int));
                    assert(final(self)@ =~= old(self)@.insert(v as int));
                }
            } else if v + 1 == r.from_id {
                self.intervals[idx].from_id = v;
                proof {
                    let s1 = self.intervals@;
                    assert(intervals_wf(s1)) by {
                        assert forall|j: int| 0 <= j < idx implies (#[trigger] s1[j]).to_id + 1
                            < s1[idx as int].from_id by {
                            assert(s0[j].to_id + 1 < v);
                        }
                    }
                    assert(final(self)@ =~= old(self)@.insert(v as int)) by {
                        assert forall|w: int| seq_has(s1, w) implies seq_has(s0, w) || w == v by {
                            let i = choose|i: int|
                                0 <= i < s1.len() && (#[trigger] s1[i]).from_id <= w
                                    <= s1[i].to_id;
                            if i == idx && w != v {
                                assert(s0[i].from_id <= w <= s0[i].to_id);
                            }
                        }
                        assert forall|w: int| seq_has(s0, w) || w == v implies seq_has(s1, w) by {
                            if w == v {
                                assert(s1[idx as int].from_id <= w <= s1[idx as int].to_id);
                            } else {
                                let i = choose|i: int|
                                    0 <= i < s0.len() && (#[trigger] s0[i]).from_id <= w
                                        <= s0[i].to_id;
                                if i == idx {
                                    assert(s1[i].from_id <= w <= s1[i].to_id);
                                } else {
                                    assert(s1[i] == s0[i]);
                                }
                            }
                        }
                    }
                }
            } else {
                self.intervals.insert(idx, IndexRange { from_id: v, to_id: v });
                proof {
                    let s1 = self.intervals@;
                    assert(forall|j: int| 0 <= j < idx ==> s1[j] == s0[j]);
                    assert(forall|j: int| idx < j < s1.len() ==> s1[j] == s0[j - 1]);
                    assert(intervals_wf(s1));
                    assert(final(self)@ =~= old(self)@.insert(v as int)) by {
                        assert forall|w: int| seq_has(s1, w) implies seq_has(s0, w) || w == v by {
                            let i = choose|i: int|
                                0 <= i < s1.len() && (#[trigger] s1[i]).from_id <= w
                                    <= s1[i].to_id;
                            if i < idx {
                                assert(s0[i] == s1[i]);
                            } else if i > idx {
                                assert(s0[i - 1] == s1[i]);
                            }
                        }
                        assert forall|w: int| seq_has(s0, w) || w == v implies seq_has(s1, w) by {
                            if w == v {
                                assert(s1[idx as int].from_id <= w <= s1[idx as int].to_id);
                            } else {
                                let i = choose|i: int|
                                    0 <= i < s0.len() && (#[trigger] s0[i]).from_id <= w
                                        <= s0[i].to_id;
                                if i < idx {
                                    assert(s1[i] == s0[i]);
                                } else {
                                    assert(s1[i + 1] == s0[i]);
                                }
                            }
                        }
                    }
                }
            }
        }
    }

    /// Takes `message_id` out of the set; an absent id is a no-op.
    /// Reports whether the id was present.
    pub fn remove(&mut self, message_id: i64) -> (r: bool)
        requires
            old(self).wf(),
        ensures
            final(self).wf(),
            final(self)@ == old(self)@.remove(message_id as int),
            r == old(self)@.contains(message_id as int),
    {
        let ghost s0 = self.intervals@;
        let v = message_id;
        let mut idx: usize = 0;
        while idx < self.intervals.len() && !(self.intervals[idx].from_id <= v && v
            <= self.intervals[idx].to_id)
            invariant
                self.intervals@ == s0,
                intervals_wf(s0),
                v == message_id,
                0 <= idx <= s0.len(),
                forall|j: int|
                    0 <= j < idx ==> !((#[trigger] s0[j]).from_id <= v && v <= s0[j].to_id),
            decreases s0.len() - idx,
        {
            idx = idx + 1;
        }
        if idx == self.intervals.len() {
            proof {
                assert(!seq_has(s0, v as int));
                assert(final(self)@ =~= old(self)@.remove(v as int));
            }
            return false;
        }
        let r = *(&self.intervals[idx]);
        proof {
            assert(seq_has(s0, v as int));
        }
        if r.from_id == v && r.to_id == v {
            self.intervals.remove(idx);
            proof {
                let s1 = self.intervals@;
                assert(forall|j: int| 0 <= j < idx ==> s1[j] == s0[j]);
                assert(forall|j: int| idx <= j < s1.len() ==> s1[j] == s0[j + 1]);
                assert(intervals_wf(s1));
                assert(final(self)@ =~= old(self)@.remove(v as int)) by {
                    assert forall|w: int| seq_has(s1, w) implies seq_has(s0, w) && w != v by {
                        let i = choose|i: int|
                            0 <= i < s1.len() && (#[trigger] s1[i]).from_id <= w <= s1[i].to_id;
                        if i < idx {
                            assert(s0[i] == s1[i]);
                            assert(i != idx);
                            if w == v {
                                assert(s0[i].from_id <= v <= s0[i].to_id);
                            }
                        } else {
                            assert(s0[i + 1] == s1[i]);
                            if w == v {
                                assert(s0[idx as int].to_id + 1 < s0[i + 1].from_id);
                            }
                        }
                    }
                    assert forall|w: int| seq_has(s0, w) && w != v implies seq_has(s1, w) by {
                        let i = choose|i: int|
                            0 <= i < s0.len() && (#[trigger] s0[i]).from_id <= w <= s0[i].to_id;
                        if i < idx {
                            assert(s1[i] == s0[i]);
                        } else if i == idx {
                            assert(w == v);
                        } else {
                            assert(s1[i - 1] == s0[i]);
                        }
                    }
                }
            }
        } else if r.from_id == v {
            self.intervals[idx].from_id = v + 1;
            proof {
                let s1 = self.intervals@;
                assert(intervals_wf(s1));
                assert(final(self)@ =~= old(self)@.remove(v as int)) by {
                    assert forall|w: int| seq_has(s1, w) implies seq_has(s0, w) && w != v by {
                        let i = choose|i: int|
                            0 <= i < s1.len() && (#[trigger] s1[i]).from_id <= w <= s1[i].to_id;
                        if i != idx && w == v {
                            assert(s0[i].from_id <= v <= s0[i].to_id);
                        }
                        assert(s0[i].from_id <= w <= s0[i].to_id);
                    }
                    assert forall|w: int| seq_has(s0, w) && w != v implies seq_has(s1, w) by {
                        let i = choose|i: int|
                            0 <= i < s0.len() && (#[trigger] s0[i]).from_id <= w <= s0[i].to_id;
                        assert(s1[i].from_id <= w <= s1[i].to_id);
                    }
                }
            }
        } else if r.to_id == v {
            self.intervals[idx].to_id = v - 1;
            proof {
                let s1 = self.intervals@;
                assert(intervals_wf(s1));
                assert(final(self)@ =~= old(self)@.remove(v as int)) by {
                    assert forall|w: int| seq_has(s1, w) implies seq_has(s0, w) && w != v by {
                        let i = choose|i: int|
                            0 <= i < s1.len() && (#[trigger] s1[i]).from_id <= w <= s1[i].to_id;
                        if i != idx && w == v {
                            assert(s0[i].from_id <= v <= s0[i].to_id);
                        }
                        assert(s0[i].from_id <= w <= s0[i].to_id);
                    }
                    assert forall|w: int| seq_has(s0, w) && w != v implies seq_has(s1, w) by {
                        let i = choose|i: int|
                            0 <= i < s0.len() && (#[trigger] s0[i]).from_id <= w <= s0[i].to_id;
                        assert(s1[i].from_id <= w <= s1[i].to_id);
                    }
                }
            }
        } else {
            // Interior id: split the run in two around it.
            let old_to = r.to_id;
            self.intervals[idx].to_id = v - 1;
            self.intervals.insert(idx + 1, IndexRange { from_id: v + 1, to_id: old_to });
            proof {
                let s1 = self.intervals@;
                assert(forall|j: int| 0 <= j < idx ==> s1[j] == s0[j]);
                assert(forall|j: int| idx + 1 < j < s1.len() ==> s1[j] == s0[j - 1]);
                assert(intervals_wf(s1));
                assert(final(self)@ =~= old(self)@.remove(v as int)) by {
                    assert forall|w: int| seq_has(s1, w) implies seq_has(s0, w) && w != v by {
                        let i = choose|i: int|
                            0 <= i < s1.len() && (#[trigger] s1[i]).from_id <= w <= s1[i].to_id;
                        if i < idx {
                            assert(s0[i] == s1[i]);
                            if w == v {
                                assert(s0[i].from_id <= v <= s0[i].to_id);
                            }
                        } else if i == idx || i == idx + 1 {
                            assert(s0[idx as int].from_id <= w <= s0[idx as int].to_id);
                        } else {
                            assert(s0[i - 1] == s1[i]);
                            if w == v {
                                assert(s0[idx as int].to_id + 1 < s0[i - 1].from_id);
                            }
                        }
                    }
                    assert forall|w: int| seq_has(s0, w) && w != v implies seq_has(s1, w) by {
                        let i = choose|i: int|
                            0 <= i < s0.len() && (#[trigger] s0[i]).from_id <= w <= s0[i].to_id;
                        if i < idx {
                            assert(s1[i] == s0[i]);
                        } else if i == idx {
                            if w < v {
                                assert(s1[idx as int].from_id <= w <= s1[idx as int].to_id);
                            } else {
                                assert(s1[idx as int + 1].from_id <= w <= s1[idx as int
                                    + 1].to_id);
                            }
                        } else {
                            assert(s1[i + 1] == s0[i]);
                        }
                    }
                }
            }
        }
        true
    }

    /// Whether `message_id` is in the set.
    pub fn has_message(&self, message_id: i64) -> (r: bool)
        ensures
            r == self@.contains(message_id as int),
    {
        let v = message_id;
        let mut idx: usize = 0;
        while idx < self.intervals.len()
            invariant
                v == message_id,
                0 <= idx <= self.intervals@.len(),
                forall|j: int|
                    0 <= j < idx ==> !((#[trigger] self.intervals@[j]).from_id <= v && v
                        <= self.intervals@[j].to_id),
            decreases self.intervals@.len() - idx,
        {
            if self.intervals[idx].from_id <= v && v <= self.intervals[idx].to_id {
                return true;
            }
            idx = idx + 1;
        }
        proof {
            assert(!seq_has(self.intervals@, v as int));
        }
        false
    }

    /// Number of ids in the set.
    pub fn len(&self) -> (r: i64)
        requires
            self.wf(),
        ensures
            r == self@.len(),
    {
        let ghost s = self.intervals@;
        let mut result: i64 = 0;
        let mut idx: usize = 0;
        while idx < self.intervals.len()
            invariant
                self.wf(),
                s == self.intervals@,
                0 <= idx <= s.len(),
                result == intervals_total(s.take(idx as int)),
                0 <= result <= i64::MAX,
            decreases s.len() - idx,
        {
            proof {
                assert(intervals_wf(s.take(idx as int + 1)));
                lemma_intervals_total_bound(s.take(idx as int + 1));
                assert(s.take(idx as int + 1).drop_last() =~= s.take(idx as int));
                assert(s.take(idx as int + 1).last() == s[idx as int]);
            }
            let r = *(&self.intervals[idx]);
            result = result + (r.to_id - r.from_id + 1);
            idx = idx + 1;
        }
        proof {
            assert(s.take(s.len() as int) =~= s);
            lemma_intervals_card(s);
        }
        result
    }
}

} // verus!
