use vstd::prelude::*;
use vstd::seq_lib::*;
use vstd::multiset::Multiset;
use std::ops::Range;

use crate::bytes::{read_uint, read_cstr, uint_at, cstr_at};

verus! {

/// Width of an address in a binary.
#[derive(Clone, Copy, Debug, PartialEq, Eq, Structural)]
pub enum Bitness {
    B32,
    B64,
}

/// Byte order of a binary.
#[derive(Clone, Copy, Debug, PartialEq, Eq, Structural)]
pub enum Endianness {
    LittleEndian,
    BigEndian,
}

/// Where a symbol table and its string table lie, as byte ranges.
#[derive(Debug)]
pub struct SymbolTable {
    pub range: Range<u64>,
    pub strtab_range: Range<u64>,
    pub is_dynamic: bool,
}

/// One function symbol: its address, size, raw name and table kind.
#[derive(Clone, Debug)]
pub struct Symbol {
    pub address: u64,
    pub size: u64,
    pub name: Vec<u8>,
    pub is_dynamic: bool,
}

/// A symbol seen as plain values: (address, size, name, is_dynamic).
pub type SymbolView = (u64, u64, Seq<u8>, bool);

impl Symbol {
    pub open spec fn view(&self) -> SymbolView {
        (self.address, self.size, self.name@, self.is_dynamic)
    }
}

/// The symbol's range `[address, address + size)` holds `p`.
pub open spec fn sym_contains(s: SymbolView, p: int) -> bool {
    s.0 <= p < s.0 + s.1
}

/// Index order: by address, then by size, then a static symbol before a dynamic one.
pub open spec fn sym_le(a: SymbolView, b: SymbolView) -> bool {
    a.0 < b.0 || (a.0 == b.0 && (a.1 < b.1 || (a.1 == b.1 && (!a.3 || b.3))))
}

pub open spec fn entry_width(is_64: bool) -> int {
    if is_64 { 24 } else { 16 }
}

pub open spec fn entry_name(t: Seq<u8>, k: int, is_64: bool, big: bool) -> nat {
    uint_at(t, k * entry_width(is_64), 4, big)
}

pub open spec fn entry_value(t: Seq<u8>, k: int, is_64: bool, big: bool) -> nat {
    if is_64 { uint_at(t, k * 24 + 8, 8, big) } else { uint_at(t, k * 16 + 4, 4, big) }
}

pub open spec fn entry_size(t: Seq<u8>, k: int, is_64: bool, big: bool) -> nat {
    if is_64 { uint_at(t, k * 24 + 16, 8, big) } else { uint_at(t, k * 16 + 8, 4, big) }
}

pub open spec fn entry_info(t: Seq<u8>, k: int, is_64: bool) -> u8 {
    if is_64 { t[k * 24 + 4] } else { t[k * 16 + 12] }
}

/// The symbol kind and binding accepted into an index: a typed symbol that is
/// not a section, a function or one with a size, bound local, global or weak.
pub open spec fn kind_accepted(info: u8, size: nat) -> bool {
    let ty = info % 16;
    let bind = info / 16;
    ty != 0 && ty != 3 && (ty == 2 || size != 0) && bind <= 2
}

/// `[value, value + size)` lies within one of the load segments, each given
/// as a half-open address range; with no segments given, any range does.
pub open spec fn within_segments(value: nat, size: nat, segments: Option<Seq<(u64, u64)>>) -> bool {
    match segments {
        None => true,
        Some(segs) => within_segment_list(value, size, segs),
    }
}

/// `[value, value + size)` lies within one of `segs`.
pub open spec fn within_segment_list(value: nat, size: nat, segs: Seq<(u64, u64)>) -> bool {
    exists|i: int| 0 <= i < segs.len() && segment_holds(segs[i], value, size)
}

pub open spec fn segment_holds(seg: (u64, u64), value: nat, size: nat) -> bool {
    seg.0 <= value && value + size <= seg.1
}

/// Entry `k` of a table enters the index.
pub open spec fn entry_accepted(
    t: Seq<u8>,
    strtab: Seq<u8>,
    k: int,
    is_64: bool,
    big: bool,
    segments: Option<Seq<(u64, u64)>>,
) -> bool {
    &&& kind_accepted(entry_info(t, k, is_64), entry_size(t, k, is_64, big))
    &&& within_segments(entry_value(t, k, is_64, big), entry_size(t, k, is_64, big), segments)
    &&& entry_name(t, k, is_64, big) <= strtab.len()
}

/// The symbol that entry `k` describes.
pub open spec fn entry_symbol(t: Seq<u8>, strtab: Seq<u8>, k: int, is_64: bool, big: bool, dynamic: bool) -> SymbolView {
    (
        entry_value(t, k, is_64, big) as u64,
        entry_size(t, k, is_64, big) as u64,
        cstr_at(strtab, entry_name(t, k, is_64, big) as int),
        dynamic,
    )
}

/// The symbols that the first `n` entries of a table contribute, in table order.
pub open spec fn table_symbols(
    t: Seq<u8>,
    strtab: Seq<u8>,
    n: int,
    is_64: bool,
    big: bool,
    dynamic: bool,
    segments: Option<Seq<(u64, u64)>>,
) -> Seq<SymbolView>
    decreases n,
{
    if n <= 0 {
        Seq::empty()
    } else {
        let prev = table_symbols(t, strtab, n - 1, is_64, big, dynamic, segments);
        if entry_accepted(t, strtab, n - 1, is_64, big, segments) {
            prev.push(entry_symbol(t, strtab, n - 1, is_64, big, dynamic))
        } else {
            prev
        }
    }
}

/// The whole entries of a table.
pub open spec fn entry_count(t: Seq<u8>, is_64: bool) -> int {
    t.len() as int / entry_width(is_64)
}

/// An address-ordered index of function symbols.
pub struct Symbols {
    entries: Vec<Symbol>,
}

impl Symbols {
    pub closed spec fn view(&self) -> Seq<SymbolView> {
        self.entries@.map_values(|s: Symbol| s@)
    }

    /// The entries are in index order.
    pub open spec fn wf(&self) -> bool {
        forall|i: int, j: int| 0 <= i < j < self@.len() ==> sym_le(#[trigger] self@[i], #[trigger] self@[j])
    }

    /// Entry `i` is the one a lookup of `p` picks: it contains `p`, and every
    /// entry that contains `p` starts lower, or at the same address but no
    /// earlier in index order (so it is no tighter, nor static where `i` is dynamic).
    pub open spec fn picks(&self, i: int, p: int) -> bool {
        &&& 0 <= i < self@.len()
        &&& sym_contains(self@[i], p)
        &&& forall|j: int|
            0 <= j < self@.len() && sym_contains(#[trigger] self@[j], p) ==> self@[j].0 < self@[i].0 || (
            self@[j].0 == self@[i].0 && i <= j)
    }

    /// Some entry contains `p`.
    pub open spec fn resolves(&self, p: int) -> bool {
        exists|j: int| 0 <= j < self@.len() && sym_contains(#[trigger] self@[j], p)
    }

    /// The entry that a lookup of `p` picks, where some entry contains `p`.
    pub open spec fn pick(&self, p: int) -> int {
        choose|i: int| self.picks(i, p)
    }

    /// At most one entry is picked for an address.
    pub proof fn lemma_unique_pick(&self, p: int, i: int, j: int)
        requires
            self.picks(i, p),
            self.picks(j, p),
        ensures
            i == j,
    {
    }

    /// The highest index below `n` whose entry contains `p`.
    proof fn last_containing(&self, p: int, n: int, j: int) -> (m: int)
        requires
            0 <= j < n <= self@.len(),
            sym_contains(self@[j], p),
        ensures
            j <= m < n,
            sym_contains(self@[m], p),
            forall|q: int| m < q < n ==> !sym_contains(#[trigger] self@[q], p),
        decreases n,
    {
        if sym_contains(self@[n - 1], p) {
            n - 1
        } else {
            self.last_containing(p, n - 1, j)
        }
    }

    /// The lowest index at or below `i` reached by stepping back over
    /// entries at the same address that contain `p`.
    proof fn first_containing_at(&self, p: int, i: int) -> (r: int)
        requires
            0 <= i < self@.len(),
            sym_contains(self@[i], p),
        ensures
            0 <= r <= i,
            sym_contains(self@[r], p),
            self@[r].0 == self@[i].0,
            r == 0 || !(self@[r - 1].0 == self@[i].0 && sym_contains(self@[r - 1], p)),
        decreases i,
    {
        if i > 0 && self@[i - 1].0 == self@[i].0 && sym_contains(self@[i - 1], p) {
            self.first_containing_at(p, i - 1)
        } else {
            i
        }
    }

    /// The index has no more entries than a vector can hold.
    pub proof fn lemma_len_fits(&self)
        ensures
            self@.len() <= usize::MAX,
    {
        vstd::std_specs::vec::axiom_spec_len(&self.entries);
    }

    /// Where some entry contains `p`, the lookup picks one.
    pub proof fn lemma_pick_exists(&self, p: int)
        requires
            self.wf(),
            self.resolves(p),
        ensures
            self.picks(self.pick(p), p),
    {
        let j = choose|j: int| 0 <= j < self@.len() && sym_contains(self@[j], p);
        let m = self.last_containing(p, self@.len() as int, j);
        let r = self.first_containing_at(p, m);
        assert forall|q: int| 0 <= q < self@.len() && sym_contains(#[trigger] self@[q], p) implies self@[q].0
            < self@[r].0 || (self@[q].0 == self@[r].0 && r <= q) by {
            if q < r {
                assert(sym_le(self@[q], self@[r]));
                if self@[q].0 == self@[r].0 {
                    assert(sym_le(self@[q], self@[r - 1]));
                    assert(sym_le(self@[r - 1], self@[r]));
                }
            } else if q <= m && q != r {
                assert(sym_le(self@[q], self@[m]));
                assert(sym_le(self@[r], self@[q]));
            }
        }
        assert(self.picks(r, p));
    }

    pub fn new() -> (r: Self)
        ensures
            r@ == Seq::<SymbolView>::empty(),
            r.wf(),
    {
        Symbols { entries: Vec::new() }
    }

    pub fn len(&self) -> (r: usize)
        ensures
            r == self@.len(),
    {
        self.entries.len()
    }

    /// Number of leading entries that come no later than `s` in index order.
    fn insertion_point(&self, s: &Symbol) -> (r: usize)
        requires
            self.wf(),
        ensures
            r <= self@.len(),
            forall|i: int| 0 <= i < r ==> sym_le(#[trigger] self@[i], s@),
            forall|i: int| r <= i < self@.len() ==> !sym_le(#[trigger] self@[i], s@),
    {
        let mut lo: usize = 0;
        let mut hi: usize = self.entries.len();
        while lo < hi
            invariant
                self.wf(),
                lo <= hi <= self@.len(),
                forall|i: int| 0 <= i < lo ==> sym_le(#[trigger] self@[i], s@),
                forall|i: int| hi <= i < self@.len() ==> !sym_le(#[trigger] self@[i], s@),
            decreases hi - lo,
        {
            let mid = lo + (hi - lo) / 2;
            let e = &self.entries[mid];
            assert(self@[mid as int] == e@);
            let le = e.address < s.address || (e.address == s.address && (e.size < s.size || (e.size
                == s.size && (!e.is_dynamic || s.is_dynamic))));
            if le {
                assert forall|i: int| 0 <= i <= mid implies sym_le(#[trigger] self@[i], s@) by {
                    if i < mid {
                        assert(sym_le(self@[i], self@[mid as int]));
                    }
                }
                lo = mid + 1;
            } else {
                assert forall|i: int| mid <= i < self@.len() implies !sym_le(#[trigger] self@[i], s@) by {
                    if i > mid {
                        assert(sym_le(self@[mid as int], self@[i]));
                    }
                }
                hi = mid;
            }
        }
        lo
    }

    /// Adds one symbol at its place in index order.
    pub fn insert(&mut self, s: Symbol)
        requires
            old(self).wf(),
        ensures
            final(self).wf(),
            final(self)@.to_multiset() == old(self)@.to_multiset().insert(s@),
    {
        let k = self.insertion_point(&s);
        let ghost before = self@;
        let ghost sv = s@;
        self.entries.insert(k, s);
        proof {
            assert(self@ =~= before.insert(k as int, sv));
            to_multiset_insert(before, k as int, sv);
            assert forall|i: int, j: int| 0 <= i < j < self@.len() implies sym_le(
                #[trigger] self@[i],
                #[trigger] self@[j],
            ) by {
                if j < k {
                } else if j == k {
                } else if i < k {
                    assert(sym_le(before[i], before[j - 1]));
                } else if i == k {
                    assert(self@[j] == before[j - 1]);
                    assert(!sym_le(before[j - 1], sv));
                } else {
                    assert(sym_le(before[i - 1], before[j - 1]));
                }
            }
        }
    }

    /// Decodes the ELF symbol entries of `symtab` (16 bytes each in a 32-bit
    /// binary, 24 in a 64-bit one) and adds each accepted one, named from
    /// `strtab`.
    pub fn add_table(
        &mut self,
        symtab: &[u8],
        strtab: &[u8],
        is_dynamic: bool,
        bitness: Bitness,
        endianness: Endianness,
        segments: &Option<Vec<(u64, u64)>>,
    )
        requires
            old(self).wf(),
        ensures
            final(self).wf(),
            final(self)@.to_multiset() == old(self)@.to_multiset().add(
                table_symbols(
                    symtab@,
                    strtab@,
                    entry_count(symtab@, bitness == Bitness::B64),
                    bitness == Bitness::B64,
                    endianness == Endianness::BigEndian,
                    is_dynamic,
                    match segments {
                        Some(v) => Some(v@),
                        None => None,
                    },
                ).to_multiset(),
            ),
    {
        let is_64 = match bitness {
            Bitness::B64 => true,
            Bitness::B32 => false,
        };
        let big = match endianness {
            Endianness::BigEndian => true,
            Endianness::LittleEndian => false,
        };
        let width: usize = if is_64 { 24 } else { 16 };
        let len: usize = symtab.len();
        let count: usize = len / width;
        proof {
            assert(count * width <= len) by (nonlinear_arith)
                requires count == len / width, width > 0;
            let empty_tbl = table_symbols(symtab@, strtab@, 0, is_64, big, is_dynamic, match segments {
                Some(v) => Some(v@),
                None => None::<Seq<(u64, u64)>>,
            });
            to_multiset_len(empty_tbl);
            vstd::multiset::lemma_multiset_empty_len(empty_tbl.to_multiset());
            assert(table_symbols(symtab@, strtab@, 0, is_64, big, is_dynamic, match segments {
                Some(v) => Some(v@),
                None => None::<Seq<(u64, u64)>>,
            }).to_multiset() =~= Multiset::empty());
            assert(self@.to_multiset().add(Multiset::empty()) =~= self@.to_multiset());
        }
        let ghost segs = match segments {
            Some(v) => Some(v@),
            None => None::<Seq<(u64, u64)>>,
        };
        let ghost start = self@;
        let mut k: usize = 0;
        while k < count
            invariant
                self.wf(),
                k <= count,
                count == entry_count(symtab@, is_64),
                len == symtab@.len(),
                width == entry_width(is_64),
                count * width <= symtab@.len(),
                is_64 == (bitness == Bitness::B64),
                big == (endianness == Endianness::BigEndian),
                segs == match segments {
                    Some(v) => Some(v@),
                    None => None::<Seq<(u64, u64)>>,
                },
                self@.to_multiset() == start.to_multiset().add(
                    table_symbols(symtab@, strtab@, k as int, is_64, big, is_dynamic, segs).to_multiset(),
                ),
            decreases count - k,
        {
            proof {
                assert(k * width + width <= count * width) by (nonlinear_arith)
                    requires k + 1 <= count;
            }
            assert(k * width + width <= len);
            let base = k * width;
            let name_off = read_uint(symtab, base, 4, big);
            let (value, size, info) = if is_64 {
                (read_uint(symtab, base + 8, 8, big), read_uint(symtab, base + 16, 8, big), symtab[base + 4])
            } else {
                (read_uint(symtab, base + 4, 4, big), read_uint(symtab, base + 8, 4, big), symtab[base + 12])
            };
            let ty = info % 16;
            let bind = info / 16;
            let kind_ok = ty != 0 && ty != 3 && (ty == 2 || size != 0) && bind <= 2;
            let seg_ok = match segments {
                None => true,
                Some(v) => in_some_segment(v, value, size),
            };
            let name_ok = name_off <= strtab.len() as u64;
            let ghost prev = table_symbols(symtab@, strtab@, k as int, is_64, big, is_dynamic, segs);
            if kind_ok && seg_ok && name_ok {
                let name = read_cstr(strtab, name_off as usize);
                let s = Symbol { address: value, size, name, is_dynamic };
                assert(s@ == entry_symbol(symtab@, strtab@, k as int, is_64, big, is_dynamic));
                self.insert(s);
                proof {
                    to_multiset_build(prev, s@);
                    assert(self@.to_multiset() =~= start.to_multiset().add(prev.push(s@).to_multiset()));
                }
            }
            k = k + 1;
        }
    }

    /// Index of the entry that a lookup of the binary-relative address `p`
    /// picks: the highest-addressed entry that contains it, and among those
    /// at one address the first in index order.
    pub fn get_symbol_index(&self, p: u64) -> (r: Option<usize>)
        requires
            self.wf(),
        ensures
            r matches Some(i) ==> self.picks(i as int, p as int) && i == self.pick(p as int),
            r is None <==> !self.resolves(p as int),
    {
        // entries [0, n) start at or below p
        let mut lo: usize = 0;
        let mut hi: usize = self.entries.len();
        while lo < hi
            invariant
                self.wf(),
                lo <= hi <= self@.len(),
                forall|i: int| 0 <= i < lo ==> #[trigger] self@[i].0 <= p,
                forall|i: int| hi <= i < self@.len() ==> #[trigger] self@[i].0 > p,
            decreases hi - lo,
        {
            let mid = lo + (hi - lo) / 2;
            if self.entries[mid].address <= p {
                assert forall|i: int| 0 <= i <= mid implies #[trigger] self@[i].0 <= p by {
                    if i < mid {
                        assert(sym_le(self@[i], self@[mid as int]));
                    }
                }
                lo = mid + 1;
            } else {
                assert forall|i: int| mid <= i < self@.len() implies #[trigger] self@[i].0 > p by {
                    if i > mid {
                        assert(sym_le(self@[mid as int], self@[i]));
                    }
                }
                hi = mid;
            }
        }
        let n = lo;
        // the last entry below n that contains p
        let mut j: usize = n;
        while j > 0 && !self.contains_at(j - 1, p)
            invariant
                self.wf(),
                j <= n <= self@.len(),
                forall|i: int| 0 <= i < n ==> #[trigger] self@[i].0 <= p,
                forall|i: int| n <= i < self@.len() ==> #[trigger] self@[i].0 > p,
                forall|i: int| j <= i < self@.len() ==> !sym_contains(#[trigger] self@[i], p as int),
            decreases j,
        {
            j = j - 1;
        }
        if j == 0 {
            return None;
        }
        let found = j - 1;
        let a = self.entries[found].address;
        // step back over earlier entries at the same address that contain p
        let mut i: usize = found;
        while i > 0 && self.entries[i - 1].address == a && self.contains_at(i - 1, p)
            invariant
                self.wf(),
                i <= found < n <= self@.len(),
                self@[found as int].0 == a,
                self@[i as int].0 == a,
                sym_contains(self@[i as int], p as int),
                forall|q: int| found < q < self@.len() ==> !sym_contains(#[trigger] self@[q], p as int),
            decreases i,
        {
            i = i - 1;
        }
        proof {
            assert forall|q: int| 0 <= q < self@.len() && sym_contains(#[trigger] self@[q], p as int) implies self@[q].0
                < self@[i as int].0 || (self@[q].0 == self@[i as int].0 && i <= q) by {
                if q < i {
                    assert(sym_le(self@[q], self@[i as int]));
                    if self@[q].0 == a {
                        assert(sym_le(self@[q], self@[i - 1]));
                        assert(sym_le(self@[i - 1], self@[i as int]));
                        assert(self@[i - 1].0 == a);
                        assert(self@[q].1 <= self@[i - 1].1);
                    }
                } else if q > found {
                } else {
                    assert(sym_le(self@[q], self@[found as int]));
                }
            }
            assert(self.picks(i as int, p as int));
            self.lemma_unique_pick(p as int, i as int, self.pick(p as int));
        }
        Some(i)
    }

    /// Entry `i` contains `p`.
    fn contains_at(&self, i: usize, p: u64) -> (r: bool)
        requires
            i < self@.len(),
        ensures
            r == sym_contains(self@[i as int], p as int),
    {
        let e = &self.entries[i];
        assert(self@[i as int] == e@);
        e.address <= p && (p - e.address) < e.size
    }

    /// The entry at `index` in index order.
    pub fn get_symbol_by_index(&self, index: usize) -> (r: Option<&Symbol>)
        ensures
            index < self@.len() ==> (r matches Some(s) && s@ == self@[index as int]),
            index >= self@.len() ==> r is None,
    {
        if index < self.entries.len() {
            Some(&self.entries[index])
        } else {
            None
        }
    }
}

/// `[value, value + size)` lies within one of `segments`.
fn in_some_segment(segments: &Vec<(u64, u64)>, value: u64, size: u64) -> (r: bool)
    ensures
        r == within_segment_list(value as nat, size as nat, segments@),
{
    let mut i: usize = 0;
    while i < segments.len()
        invariant
            i <= segments@.len(),
            forall|q: int|
                0 <= q < i ==> !segment_holds(#[trigger] segments@[q], value as nat, size as nat),
        decreases segments@.len() - i,
    {
        let (s, e) = segments[i];
        if s <= value && value <= e && size <= e - value {
            assert(segments@[i as int].0 <= value && value + size <= segments@[i as int].1);
            assert(segment_holds(segments@[i as int], value as nat, size as nat));
            return true;
        }
        i = i + 1;
    }
    false
}

} // verus!
