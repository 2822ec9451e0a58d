use vstd::prelude::*;

verus! {

/// `p` lies in the half-open range `[start, end)`.
pub open spec fn range_contains(start: u64, end: u64, p: u64) -> bool {
    start <= p && p < end
}

/// Two half-open ranges share no point.
pub open spec fn ranges_disjoint(s1: u64, e1: u64, s2: u64, e2: u64) -> bool {
    e1 <= s2 || e2 <= s1
}

/// An interval map: non-empty, pairwise disjoint half-open ranges kept in
/// ascending order, each with a value.
pub struct RangeMap<V> {
    entries: Vec<(u64, u64, V)>,
}

impl<V> RangeMap<V> {
    pub closed spec fn view(&self) -> Seq<(u64, u64, V)> {
        self.entries@
    }

    /// Every range is non-empty and lies wholly before every later one.
    pub open spec fn wf(&self) -> bool {
        &&& forall|i: int| 0 <= i < self@.len() ==> #[trigger] self@[i].0 < self@[i].1
        &&& forall|i: int, j: int|
            0 <= i < j < self@.len() ==> #[trigger] self@[i].1 <= #[trigger] self@[j].0
    }

    /// The range `[start, end)` shares no point with any stored range.
    pub open spec fn fits(&self, start: u64, end: u64) -> bool {
        forall|i: int| 0 <= i < self@.len() ==> ranges_disjoint(#[trigger] self@[i].0, self@[i].1, start, end)
    }

    /// Some stored range contains `p`.
    pub open spec fn covers(&self, p: u64) -> bool {
        exists|i: int| 0 <= i < self@.len() && range_contains(#[trigger] self@[i].0, self@[i].1, p)
    }

    /// Index of the entry that contains `p`, where one does.
    pub open spec fn index_at(&self, p: u64) -> int {
        choose|i: int| 0 <= i < self@.len() && range_contains(self@[i].0, self@[i].1, p)
    }

    /// Value of the entry that contains `p`, where one does.
    pub open spec fn value_at(&self, p: u64) -> V {
        self@[self.index_at(p)].2
    }

    /// At most one entry contains a point.
    pub proof fn lemma_unique_cover(&self, p: u64, i: int, j: int)
        requires
            self.wf(),
            0 <= i < self@.len(),
            0 <= j < self@.len(),
            range_contains(self@[i].0, self@[i].1, p),
            range_contains(self@[j].0, self@[j].1, p),
        ensures
            i == j,
    {
        if i < j {
            assert(self@[i].1 <= self@[j].0);
        } else if j < i {
            assert(self@[j].1 <= self@[i].0);
        }
    }

    pub fn new() -> (r: Self)
        ensures
            r@ == Seq::<(u64, u64, V)>::empty(),
            r.wf(),
    {
        RangeMap { entries: Vec::new() }
    }

    pub fn len(&self) -> (r: usize)
        ensures
            r == self@.len(),
    {
        self.entries.len()
    }

    /// Number of leading entries whose range ends at or before `p`.
    fn count_ending_by(&self, p: u64) -> (r: usize)
        requires
            self.wf(),
        ensures
            r <= self@.len(),
            forall|i: int| 0 <= i < r ==> #[trigger] self@[i].1 <= p,
            forall|i: int| r <= i < self@.len() ==> #[trigger] self@[i].1 > p,
    {
        let mut lo: usize = 0;
        let mut hi: usize = self.entries.len();
        while lo < hi
            invariant
                self.wf(),
                lo <= hi <= self@.len(),
                forall|i: int| 0 <= i < lo ==> #[trigger] self@[i].1 <= p,
                forall|i: int| hi <= i < self@.len() ==> #[trigger] self@[i].1 > p,
            decreases hi - lo,
        {
            let mid = lo + (hi - lo) / 2;
            if self.entries[mid].1 <= p {
                assert forall|i: int| 0 <= i <= mid implies #[trigger] self@[i].1 <= p by {
                    if i < mid {
                        assert(self@[i].1 <= self@[mid as int].0);
                    }
                }
                lo = mid + 1;
            } else {
                assert forall|i: int| mid <= i < self@.len() implies #[trigger] self@[i].1 > p by {
                    if i > mid {
                        assert(self@[mid as int].1 <= self@[i].0);
                    }
                }
                hi = mid;
            }
        }
        lo
    }

    /// Number of leading entries whose range starts at or before `p`.
    fn count_starting_by(&self, p: u64) -> (r: usize)
        requires
            self.wf(),
        ensures
            r <= self@.len(),
            forall|i: int| 0 <= i < r ==> #[trigger] self@[i].0 <= p,
            forall|i: int| r <= i < self@.len() ==> #[trigger] self@[i].0 > p,
    {
        let mut lo: usize = 0;
        let mut hi: usize = self.entries.len();
        while lo < hi
            invariant
                self.wf(),
                lo <= hi <= self@.len(),
                forall|i: int| 0 <= i < lo ==> #[trigger] self@[i].0 <= p,
                forall|i: int| hi <= i < self@.len() ==> #[trigger] self@[i].0 > p,
            decreases hi - lo,
        {
            let mid = lo + (hi - lo) / 2;
            if self.entries[mid].0 <= p {
                assert forall|i: int| 0 <= i <= mid implies #[trigger] self@[i].0 <= p by {
                    if i < mid {
                        assert(self@[i].1 <= self@[mid as int].0);
                    }
                }
                lo = mid + 1;
            } else {
                assert forall|i: int| mid <= i < self@.len() implies #[trigger] self@[i].0 > p by {
                    if i > mid {
                        assert(self@[mid as int].1 <= self@[i].0);
                    }
                }
                hi = mid;
            }
        }
        lo
    }

    /// Whether `push(start, end, _)` would be accepted.
    pub fn can_push(&self, start: u64, end: u64) -> (r: bool)
        requires
            self.wf(),
        ensures
            r == (start < end && self.fits(start, end)),
    {
        if start >= end {
            return false;
        }
        let k = self.count_ending_by(start);
        if k < self.entries.len() && self.entries[k].0 < end {
            assert(!ranges_disjoint(self@[k as int].0, self@[k as int].1, start, end));
            return false;
        }
        proof {
            assert forall|i: int| 0 <= i < self@.len() implies ranges_disjoint(
                #[trigger] self@[i].0,
                self@[i].1,
                start,
                end,
            ) by {
                if i > k {
                    assert(self@[k as int].1 <= self@[i].0);
                }
            }
        }
        true
    }

    /// Whether some entry's range is exactly `[start, end)`.
    pub fn has_exact_range(&self, start: u64, end: u64) -> (r: bool)
        requires
            self.wf(),
        ensures
            r == exists|i: int| 0 <= i < self@.len() && #[trigger] self@[i].0 == start && self@[i].1 == end,
    {
        let k = self.count_ending_by(start);
        if k < self.entries.len() && self.entries[k].0 == start && self.entries[k].1 == end {
            assert(self@[k as int].0 == start);
            true
        } else {
            proof {
                assert forall|i: int| 0 <= i < self@.len() && #[trigger] self@[i].0 == start implies self@[i].1
                    != end by {
                    if i < k {
                        assert(self@[i].1 <= start);
                    } else if i > k {
                        assert(self@[k as int].1 <= self@[i].0);
                        assert(self@[k as int].0 < self@[k as int].1);
                    }
                }
            }
            false
        }
    }

    /// Adds `[start, end)` with `value`. Refused, handing the value back, when
    /// the range is empty or shares a point with a stored range.
    pub fn push(&mut self, start: u64, end: u64, value: V) -> (r: Result<(), V>)
        requires
            old(self).wf(),
        ensures
            final(self).wf(),
            r is Ok <==> (start < end && old(self).fits(start, end)),
            r is Ok ==> exists|k: int|
                0 <= k <= old(self)@.len() && final(self)@ == old(self)@.insert(k, (start, end, value)),
            r is Err ==> final(self)@ == old(self)@ && r == Err::<(), V>(value),
    {
        if start >= end {
            return Err(value);
        }
        let k = self.count_ending_by(start);
        if k < self.entries.len() && self.entries[k].0 < end {
            assert(!ranges_disjoint(self@[k as int].0, self@[k as int].1, start, end));
            return Err(value);
        }
        proof {
            assert forall|i: int| 0 <= i < self@.len() implies ranges_disjoint(
                #[trigger] self@[i].0,
                self@[i].1,
                start,
                end,
            ) by {
                if i > k {
                    assert(self@[k as int].1 <= self@[i].0);
                }
            }
        }
        let ghost before = self@;
        self.entries.insert(k, (start, end, value));
        proof {
            assert(self@ == before.insert(k as int, (start, end, value)));
            assert forall|i: int, j: int| 0 <= i < j < self@.len() implies #[trigger] self@[i].1
                <= #[trigger] self@[j].0 by {
                if j < k {
                } else if j == k {
                } else if i < k {
                    assert(before[i].1 <= before[j - 1].0);
                } else if i == k {
                    assert(self@[j] == before[j - 1]);
                } else {
                    assert(before[i - 1].1 <= before[j - 1].0);
                }
            }
        }
        Ok(())
    }

    /// Removes the entry whose range is exactly `[start, end)` and returns its
    /// value. Refused when no stored range is exactly that one.
    pub fn remove_by_exact_range(&mut self, start: u64, end: u64) -> (r: Result<V, ()>)
        requires
            old(self).wf(),
        ensures
            final(self).wf(),
            r is Ok <==> exists|i: int|
                0 <= i < old(self)@.len() && #[trigger] old(self)@[i].0 == start && old(self)@[i].1 == end,
            r is Ok ==> exists|i: int|
                0 <= i < old(self)@.len() && #[trigger] old(self)@[i].0 == start && old(self)@[i].1 == end
                    && r == Ok::<V, ()>(old(self)@[i].2) && final(self)@ == old(self)@.remove(i),
            r is Err ==> final(self)@ == old(self)@,
    {
        let k = self.count_ending_by(start);
        if k < self.entries.len() && self.entries[k].0 == start && self.entries[k].1 == end {
            let ghost before = self@;
            let (_, _, value) = self.entries.remove(k);
            proof {
                assert(self@ == before.remove(k as int));
                assert forall|i: int, j: int| 0 <= i < j < self@.len() implies #[trigger] self@[i].1
                    <= #[trigger] self@[j].0 by {
                    if j < k {
                    } else if i < k {
                        assert(before[i].1 <= before[j + 1].0);
                    } else {
                        assert(before[i + 1].1 <= before[j + 1].0);
                    }
                }
                assert(before[k as int].0 == start);
            }
            Ok(value)
        } else {
            proof {
                assert forall|i: int| 0 <= i < self@.len() && #[trigger] self@[i].0 == start implies self@[i].1
                    != end by {
                    if i < k {
                        assert(self@[i].1 <= start);
                    } else if i > k {
                        assert(self@[k as int].1 <= self@[i].0);
                        assert(self@[k as int].0 < self@[k as int].1);
                    }
                }
            }
            Err(())
        }
    }

    /// Index of the entry whose range contains `p`.
    pub fn get_index(&self, p: u64) -> (r: Option<usize>)
        requires
            self.wf(),
        ensures
            r matches Some(i) ==> i < self@.len() && range_contains(self@[i as int].0, self@[i as int].1, p)
                && i == self.index_at(p),
            r is None <==> !self.covers(p),
    {
        let n = self.count_starting_by(p);
        if n > 0 && p < self.entries[n - 1].1 {
            proof {
                let c = self.index_at(p);
                assert(range_contains(self@[n - 1].0, self@[n - 1].1, p));
                self.lemma_unique_cover(p, c, n - 1);
            }
            Some(n - 1)
        } else {
            proof {
                assert forall|i: int| 0 <= i < self@.len() implies !range_contains(
                    #[trigger] self@[i].0,
                    self@[i].1,
                    p,
                ) by {
                    if i < n - 1 {
                        assert(self@[i].1 <= self@[n - 1].0);
                    }
                }
            }
            None
        }
    }

    /// Value of the entry whose range contains `p`.
    pub fn get_value(&self, p: u64) -> (r: Option<&V>)
        requires
            self.wf(),
        ensures
            r matches Some(v) ==> self.covers(p) && *v == self.value_at(p),
            r is None <==> !self.covers(p),
    {
        match self.get_index(p) {
            Some(i) => Some(&self.entries[i].2),
            None => None,
        }
    }

    /// Value of the entry at position `index` in ascending order.
    pub fn get_value_by_index(&self, index: usize) -> (r: Option<&V>)
        ensures
            index < self@.len() ==> r == Some(&self@[index as int].2),
            index >= self@.len() ==> r is None,
    {
        if index < self.entries.len() {
            Some(&self.entries[index].2)
        } else {
            None
        }
    }

    /// Range of the entry at position `index` in ascending order.
    pub fn get_range_by_index(&self, index: usize) -> (r: Option<(u64, u64)>)
        ensures
            index < self@.len() ==> r == Some((self@[index as int].0, self@[index as int].1)),
            index >= self@.len() ==> r is None,
    {
        if index < self.entries.len() {
            Some((self.entries[index].0, self.entries[index].1))
        } else {
            None
        }
    }
}

} // verus!
