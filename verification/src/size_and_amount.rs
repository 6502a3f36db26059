use vstd::prelude::*;

verus! {

/// Running totals for a container of messages: the summed payload
/// length and the number of entries. Kept in lock-step with the owning
/// message map and never independently authoritative.
#[derive(Debug, Clone, Copy, PartialEq, Eq, Structural)]
pub struct SizeAndAmount {
    pub size: usize,
    pub amount: usize,
}

impl SizeAndAmount {
    pub fn new() -> (r: Self)
        ensures
            r.size == 0,
            r.amount == 0,
    {
        Self { size: 0, amount: 0 }
    }

    /// Records one entry of `len` bytes entering the container.
    pub fn added(&mut self, len: usize)
        requires
            old(self).size + len <= usize::MAX,
            old(self).amount + 1 <= usize::MAX,
        ensures
            final(self).size == old(self).size + len,
            final(self).amount == old(self).amount + 1,
    {
        self.size = self.size + len;
        self.amount = self.amount + 1;
    }

    /// Records one entry of `len` bytes leaving the container. Only
    /// sound for a length that was previously added.
    pub fn removed(&mut self, len: usize)
        requires
            len <= old(self).size,
            1 <= old(self).amount,
        ensures
            final(self).size == old(self).size - len,
            final(self).amount == old(self).amount - 1,
    {
        self.size = self.size - len;
        self.amount = self.amount - 1;
    }

    /// The totals as a pair: summed bytes, then entry count.
    pub fn snapshot(&self) -> (r: (usize, usize))
        ensures
            r.0 == self.size,
            r.1 == self.amount,
    {
        (self.size, self.amount)
    }
}

} // verus!
