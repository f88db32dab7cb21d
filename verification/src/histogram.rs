//! Per-bin value collection for the histogram tool.
//!
//! Each bin gathers the scalars (IEEE 754 bit patterns) that curves of one
//! initial-condition index were reduced to; the bins are later summarised
//! into one mean per index.

use vstd::prelude::*;

verus! {

/// Bin-indexed scalar storage.
#[derive(Clone)]
pub struct Histogram {
    hist: Vec<Vec<u64>>,
}

impl Histogram {
    /// Number of bins.
    pub closed spec fn bin_count(&self) -> nat {
        self.hist@.len()
    }

    /// The values collected in bin `i`.
    pub closed spec fn bin(&self, i: int) -> Seq<u64> {
        self.hist@[i]@
    }

    /// `capacity` empty bins.
    pub fn new(capacity: usize) -> (h: Self)
        ensures
            h.bin_count() == capacity,
            forall|i: int| 0 <= i < capacity ==> (#[trigger] h.bin(i)).len() == 0,
    {
        let mut hist: Vec<Vec<u64>> = Vec::new();
        for i in 0..capacity
            invariant
                hist@.len() == i,
                forall|a: int| 0 <= a < i ==> (#[trigger] hist@[a])@.len() == 0,
        {
            hist.push(Vec::new());
        }
        Self { hist }
    }

    /// Read access to the raw bins.
    pub fn hist(&self) -> (r: &Vec<Vec<u64>>)
        ensures
            r@.len() == self.bin_count(),
            forall|i: int| 0 <= i < r@.len() ==> (#[trigger] r@[i])@ == self.bin(i),
    {
        &self.hist
    }

    /// Appends a value to bin `index`.
    pub fn push(&mut self, index: usize, val: u64)
        requires
            index < old(self).bin_count(),
        ensures
            final(self).bin_count() == old(self).bin_count(),
            final(self).bin(index as int) == old(self).bin(index as int).push(val),
            forall|i: int|
                0 <= i < old(self).bin_count() && i != index ==> #[trigger] final(self).bin(i)
                    == old(self).bin(i),
    {
        self.hist[index].push(val);
    }

    /// Gives up the raw bins.
    pub fn into_vec(self) -> (r: Vec<Vec<u64>>)
        ensures
            r@.len() == self.bin_count(),
            forall|i: int| 0 <= i < r@.len() ==> (#[trigger] r@[i])@ == self.bin(i),
    {
        self.hist
    }

    /// Merges another histogram into this one: matching bins are
    /// concatenated (this one's values first), and the other's surplus bins
    /// are taken over whole.  The other histogram must have at least as
    /// many bins as this one.
    pub fn append(&mut self, other: Histogram)
        requires
            old(self).bin_count() <= other.bin_count(),
        ensures
            final(self).bin_count() == other.bin_count(),
            forall|i: int|
                0 <= i < old(self).bin_count() ==> #[trigger] final(self).bin(i) == old(self).bin(
                    i,
                ) + other.bin(i),
            forall|i: int|
                old(self).bin_count() <= i < other.bin_count() ==> #[trigger] final(self).bin(i)
                    == other.bin(i),
    {
        let mut other = other;
        let ghost orig = other;
        let self_len = self.hist.len();
        let mut extra = other.hist.split_off(self_len);
        for i in 0..self_len
            invariant
                self_len == old(self).bin_count(),
                self.hist@.len() == self_len,
                other.hist@.len() == self_len,
                forall|a: int|
                    0 <= a < i ==> (#[trigger] self.hist@[a])@ == old(self).bin(a) + orig.bin(a),
                forall|a: int|
                    i <= a < self_len ==> (#[trigger] self.hist@[a])@ == old(self).bin(a),
                forall|a: int|
                    i <= a < self_len ==> (#[trigger] other.hist@[a])@ == orig.bin(a),
                extra@.len() + self_len == orig.bin_count(),
                forall|a: int|
                    0 <= a < extra@.len() ==> (#[trigger] extra@[a])@ == orig.bin(self_len + a),
        {
            let ghost prev_self = self.hist@;
            let ghost prev_other = other.hist@;
            let dst = &mut self.hist[i];
            let src = &mut other.hist[i];
            dst.append(src);
            proof {
                assert(self.hist@[i as int]@ == prev_self[i as int]@ + prev_other[i as int]@);
                assert forall|a: int| 0 <= a < self_len && a != i implies self.hist@[a]
                    == prev_self[a] by {}
                assert forall|a: int| 0 <= a < self_len && a != i implies other.hist@[a]
                    == prev_other[a] by {}
            }
        }
        let ghost extra_snap = extra@;
        self.hist.append(&mut extra);
        proof {
            assert forall|i: int|
                old(self).bin_count() <= i < orig.bin_count() implies #[trigger] self.bin(i)
                == orig.bin(i) by {
                assert(self.hist@[i] == extra_snap[i - self_len]);
            }
        }
    }
}

} // verus!
