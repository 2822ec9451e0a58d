use vstd::prelude::*;

use crate::bytes::{copy_bytes, same_bytes};
use crate::keyed::{pairs_map, keys_unique, lemma_pairs_map_at, lemma_pairs_map_absent};

verus! {

/// What the Itanium C++ demangler makes of a raw symbol name, if it can
/// parse and print it.
pub uninterp spec fn demangled_of(raw: Seq<u8>) -> Option<Seq<u8>>;

/// Relies on `cpp_demangle::Symbol::new`, which parses a mangled name, and
/// `Symbol::demangle`, which prints it with the default options; `None` when
/// either fails.
#[verifier::external_body]
fn demangle_raw(raw: &[u8]) -> (r: Option<Vec<u8>>)
    ensures
        r matches Some(v) ==> demangled_of(raw@) == Some(v@),
        r is None ==> demangled_of(raw@) is None,
{
    cpp_demangle::Symbol::new(raw).ok().and_then(|s| s.demangle().ok()).map(String::into_bytes)
}

/// The name is an Itanium C++ mangled name: it starts with `_Z`.
pub open spec fn is_mangled(s: Seq<u8>) -> bool {
    s.len() >= 2 && s[0] == 95u8 && s[1] == 90u8
}

/// What demangling gives for a name: nothing for a name that is not mangled.
pub open spec fn demangle_spec(s: Seq<u8>) -> Option<Seq<u8>> {
    if is_mangled(s) {
        demangled_of(s)
    } else {
        None
    }
}

/// The name to show for a symbol: its demangled form where there is one,
/// else the raw name.
pub open spec fn display_name_spec(s: Seq<u8>) -> Seq<u8> {
    match demangle_spec(s) {
        Some(d) => d,
        None => s,
    }
}

fn starts_with_mangling_prefix(s: &[u8]) -> (r: bool)
    ensures
        r == is_mangled(s@),
{
    s.len() >= 2 && s[0] == 95u8 && s[1] == 90u8
}



/// The cache after looking `s` up: a mangled name gains its result.
pub open spec fn cache_after(m: Map<Seq<u8>, Option<Seq<u8>>>, s: Seq<u8>) -> Map<Seq<u8>, Option<Seq<u8>>> {
    if is_mangled(s) {
        m.insert(s, demangled_of(s))
    } else {
        m
    }
}

/// Remembers what demangling gave for each mangled name seen.
pub struct DemangleCache {
    cache: Vec<(Vec<u8>, Option<Vec<u8>>)>,
}

impl DemangleCache {
    closed spec fn pairs(&self) -> Seq<(Seq<u8>, Option<Seq<u8>>)> {
        self.cache@.map_values(|e: (Vec<u8>, Option<Vec<u8>>)| (e.0@, match e.1 {
            Some(d) => Some(d@),
            None => None,
        }))
    }

    /// Each name seen, with what demangling gave for it.
    pub closed spec fn view(&self) -> Map<Seq<u8>, Option<Seq<u8>>> {
        pairs_map(self.pairs())
    }

    /// Names are remembered once, each with the demangler's result.
    pub closed spec fn wf(&self) -> bool {
        &&& keys_unique(self.pairs())
        &&& forall|i: int|
            0 <= i < self.pairs().len() ==> {
                let e = #[trigger] self.pairs()[i];
                is_mangled(e.0) && e.1 == demangled_of(e.0)
            }
    }

    /// Every remembered result is the demangler's result for its name.
    pub proof fn lemma_entries(&self)
        requires
            self.wf(),
        ensures
            forall|k: Seq<u8>| #[trigger] self@.contains_key(k) ==> is_mangled(k) && self@[k] == demangled_of(k),
    {
        assert forall|k: Seq<u8>| #[trigger] self@.contains_key(k) implies is_mangled(k) && self@[k] == demangled_of(k) by {
            if forall|i: int| 0 <= i < self.pairs().len() ==> #[trigger] self.pairs()[i].0 != k {
                lemma_pairs_map_absent(self.pairs(), k);
            }
            let i = choose|i: int| 0 <= i < self.pairs().len() && #[trigger] self.pairs()[i].0 == k;
            lemma_pairs_map_at(self.pairs(), i);
        }
    }

    pub fn new() -> (r: Self)
        ensures
            r.wf(),
            r@ == Map::<Seq<u8>, Option<Seq<u8>>>::empty(),
    {
        let r = DemangleCache { cache: Vec::new() };
        assert(r.pairs() =~= Seq::empty());
        r
    }

    /// Demangles without the cache.
    pub fn demangle_uncached(symbol: &[u8]) -> (r: Option<Vec<u8>>)
        ensures
            r matches Some(v) ==> demangle_spec(symbol@) == Some(v@),
            r is None <==> demangle_spec(symbol@) is None,
    {
        if !starts_with_mangling_prefix(symbol) {
            return None;
        }
        demangle_raw(symbol)
    }

    /// Demangles `symbol`: `None` for a name that does not start with `_Z`
    /// or that the demangler cannot handle. A mangled name not seen before
    /// is remembered with its result; otherwise the cache stays as it was.
    pub fn demangle(&mut self, symbol: &[u8]) -> (r: Option<Vec<u8>>)
        requires
            old(self).wf(),
        ensures
            final(self).wf(),
            r matches Some(v) ==> demangle_spec(symbol@) == Some(v@),
            r is None <==> demangle_spec(symbol@) is None,
            final(self)@ == cache_after(old(self)@, symbol@),
            old(self)@.contains_key(symbol@) || !is_mangled(symbol@) ==> final(self)@ == old(self)@,
    {
        proof {
            self.lemma_entries();
        }
        if !starts_with_mangling_prefix(symbol) {
            return None;
        }
        let mut i: usize = 0;
        while i < self.cache.len()
            invariant
                self.wf(),
                self == old(self),
                i <= self.cache@.len(),
                forall|q: int| 0 <= q < i ==> #[trigger] self.pairs()[q].0 != symbol@,
            decreases self.cache@.len() - i,
        {
            if same_bytes(self.cache[i].0.as_slice(), symbol) {
                proof {
                    assert(self.pairs()[i as int].0 == symbol@);
                    lemma_pairs_map_at(self.pairs(), i as int);
                    assert(self@.insert(symbol@, demangled_of(symbol@)) =~= self@);
                }
                return match &self.cache[i].1 {
                    Some(d) => Some(copy_bytes(d.as_slice())),
                    None => None,
                };
            }
            i = i + 1;
        }
        proof {
            lemma_pairs_map_absent(self.pairs(), symbol@);
        }
        let result = demangle_raw(symbol);
        let stored = match &result {
            Some(d) => Some(copy_bytes(d.as_slice())),
            None => None,
        };
        let key = copy_bytes(symbol);
        let ghost before = self.pairs();
        self.cache.push((key, stored));
        proof {
            assert(self.pairs() =~= before.push((symbol@, demangled_of(symbol@))));
            assert(self.pairs().drop_last() =~= before);
            assert forall|a: int, b: int| 0 <= a < b < self.pairs().len() implies #[trigger] self.pairs()[a].0
                != #[trigger] self.pairs()[b].0 by {
                if b < before.len() {
                    assert(before[a].0 != before[b].0);
                } else {
                    assert(self.pairs()[a] == before[a]);
                }
            }
            assert forall|q: int| 0 <= q < self.pairs().len() implies {
                let e = #[trigger] self.pairs()[q];
                is_mangled(e.0) && e.1 == demangled_of(e.0)
            } by {
                if q < before.len() {
                    assert(self.pairs()[q] == before[q]);
                }
            }
        }
        result
    }

    /// The name to show for `symbol`: demangled where that succeeds, else
    /// the name unchanged. The cache changes as `demangle` changes it.
    pub fn display_name(&mut self, symbol: &[u8]) -> (r: Vec<u8>)
        requires
            old(self).wf(),
        ensures
            final(self).wf(),
            r@ == display_name_spec(symbol@),
            !is_mangled(symbol@) ==> r@ == symbol@,
            final(self)@ == cache_after(old(self)@, symbol@),
            old(self)@.contains_key(symbol@) || !is_mangled(symbol@) ==> final(self)@ == old(self)@,
    {
        match self.demangle(symbol) {
            Some(d) => d,
            None => copy_bytes(symbol),
        }
    }
}

} // verus!
