use vstd::prelude::*;

use crate::frame::Frame;
use crate::keyed::{pairs_map, keys_unique, lemma_pairs_map_at, lemma_pairs_map_absent, lemma_pairs_map_update};

verus! {

/// One more sample, staying at the largest count once it is reached.
pub open spec fn bump(c: u64) -> u64 {
    if c < u64::MAX { (c + 1) as u64 } else { c }
}

/// The counts after one more sample of `stack`.
pub open spec fn count_stack(m: Map<Seq<Frame>, u64>, stack: Seq<Frame>) -> Map<Seq<Frame>, u64> {
    m.insert(stack, if m.contains_key(stack) { bump(m[stack]) } else { 1 })
}

/// The counts after `n` more samples of `stack`.
pub open spec fn count_stack_times(m: Map<Seq<Frame>, u64>, stack: Seq<Frame>, n: nat) -> Map<Seq<Frame>, u64>
    decreases n,
{
    if n == 0 {
        m
    } else {
        count_stack(count_stack_times(m, stack, (n - 1) as nat), stack)
    }
}

/// How many times each distinct stack was seen.
pub struct Histogram {
    entries: Vec<(Vec<Frame>, u64)>,
}

impl Histogram {
    pub closed spec fn pairs(&self) -> Seq<(Seq<Frame>, u64)> {
        self.entries@.map_values(|e: (Vec<Frame>, u64)| (e.0@, e.1))
    }

    pub open spec fn view(&self) -> Map<Seq<Frame>, u64> {
        pairs_map(self.pairs())
    }

    pub open spec fn wf(&self) -> bool {
        keys_unique(self.pairs())
    }

    pub fn new() -> (r: Self)
        ensures
            r@ == Map::<Seq<Frame>, u64>::empty(),
            r.wf(),
    {
        Histogram { entries: Vec::new() }
    }

    /// Number of distinct stacks.
    pub fn len(&self) -> (r: usize)
        ensures
            r == self.pairs().len(),
    {
        self.entries.len()
    }

    /// The stack at position `i` and its count.
    pub fn entry(&self, i: usize) -> (r: (&Vec<Frame>, u64))
        requires
            i < self.pairs().len(),
        ensures
            r.0@ == self.pairs()[i as int].0,
            r.1 == self.pairs()[i as int].1,
    {
        (&self.entries[i].0, self.entries[i].1)
    }

    /// Counts one more sample of `stack`.
    pub fn add(&mut self, stack: Vec<Frame>)
        requires
            old(self).wf(),
        ensures
            final(self).wf(),
            final(self)@ == count_stack(old(self)@, stack@),
    {
        let ghost before = self.pairs();
        let mut i: usize = 0;
        while i < self.entries.len()
            invariant
                i <= self.entries@.len(),
                self.pairs() == before,
                old(self).pairs() == before,
                keys_unique(before),
                forall|q: int| 0 <= q < i ==> #[trigger] before[q].0 != stack@,
            decreases self.entries@.len() - i,
        {
            if same_frames(&self.entries[i].0, &stack) {
                let c = self.entries[i].1;
                let n = if c < u64::MAX { c + 1 } else { c };
                proof {
                    assert(before[i as int] == (self.entries@[i as int].0@, self.entries@[i as int].1));
                    assert(c == before[i as int].1);
                    assert(before[i as int].0 == stack@);
                    lemma_pairs_map_at(before, i as int);
                    lemma_pairs_map_update(before, i as int, n);
                }
                self.entries.set(i, (stack, n));
                proof {
                    assert(self.pairs() =~= before.update(i as int, (before[i as int].0, n)));
                    assert forall|a: int, b: int| 0 <= a < b < self.pairs().len() implies #[trigger] self.pairs()[a].0
                        != #[trigger] self.pairs()[b].0 by {
                        assert(before[a].0 != before[b].0);
                    }
                    assert(pairs_map(before)[stack@] == c);
                    assert(self@ =~= count_stack(pairs_map(before), stack@));
                }
                return;
            }
            i = i + 1;
        }
        proof {
            lemma_pairs_map_absent(before, stack@);
        }
        let ghost sv = stack@;
        self.entries.push((stack, 1));
        proof {
            assert(self.pairs() =~= before.push((sv, 1u64)));
            assert(self.pairs().drop_last() =~= before);
            assert forall|a: int, b: int| 0 <= a < b < self.pairs().len() implies #[trigger] self.pairs()[a].0
                != #[trigger] self.pairs()[b].0 by {
                if b < before.len() {
                    assert(before[a].0 != before[b].0);
                } else {
                    assert(self.pairs()[a] == before[a]);
                }
            }
        }
    }
}

/// Whether two stacks hold the same frames.
fn same_frames(a: &Vec<Frame>, b: &Vec<Frame>) -> (r: bool)
    ensures
        r == (a@ == b@),
{
    if a.len() != b.len() {
        return false;
    }
    let mut i: usize = 0;
    while i < a.len()
        invariant
            a@.len() == b@.len(),
            i <= a@.len(),
            forall|q: int| 0 <= q < i ==> a@[q] == b@[q],
        decreases a@.len() - i,
    {
        if a[i] != b[i] {
            return false;
        }
        i = i + 1;
    }
    assert(a@ =~= b@);
    true
}

/// Identical samples collapse into one entry: `n` samples of one stack,
/// counted from nothing, leave that stack alone with count `n`.
pub proof fn lemma_identical_samples(stack: Seq<Frame>, n: nat)
    requires
        1 <= n <= u64::MAX,
    ensures
        count_stack_times(Map::empty(), stack, n) == map![stack => n as u64],
    decreases n,
{
    if n == 1 {
        assert(count_stack_times(Map::empty(), stack, 0) == Map::<Seq<Frame>, u64>::empty());
        assert(count_stack_times(Map::empty(), stack, 1) =~= map![stack => 1u64]);
    } else {
        lemma_identical_samples(stack, (n - 1) as nat);
        assert(count_stack_times(Map::empty(), stack, n) =~= map![stack => n as u64]);
    }
}

} // verus!
