use vstd::prelude::*;

use crate::range_map::RangeMap;

verus! {

/// A kernel symbol: its address, raw name and the module it belongs to, if any.
#[derive(Clone, Debug)]
pub struct KernelSymbol {
    pub address: u64,
    pub name: Vec<u8>,
    pub module: Option<Vec<u8>>,
}

/// A kernel symbol seen as plain values: (address, name, module).
pub type KernelSymbolView = (u64, Seq<u8>, Option<Seq<u8>>);

impl KernelSymbol {
    pub open spec fn view(&self) -> KernelSymbolView {
        (
            self.address,
            self.name@,
            match self.module {
                Some(m) => Some(m@),
                None => None,
            },
        )
    }
}

/// Value of a hexadecimal digit, if `c` is one.
pub open spec fn hex_digit(c: u8) -> Option<nat> {
    if 48 <= c <= 57 {
        Some((c - 48) as nat)
    } else if 97 <= c <= 102 {
        Some((c - 87) as nat)
    } else if 65 <= c <= 70 {
        Some((c - 55) as nat)
    } else {
        None
    }
}

/// Number of hexadecimal digits that start `s` from `i` on.
pub open spec fn hex_run(s: Seq<u8>, i: int) -> int
    decreases s.len() - i,
{
    if i < 0 || i >= s.len() || hex_digit(s[i]) is None {
        0
    } else {
        1 + hex_run(s, i + 1)
    }
}

/// Value of the hexadecimal digits `s[0..n)`.
pub open spec fn hex_value(s: Seq<u8>, n: int) -> nat
    decreases n,
{
    if n <= 0 {
        0
    } else {
        hex_value(s, n - 1) * 16 + hex_digit(s[n - 1])->Some_0
    }
}

/// First position at or after `i` that holds `b`, or the length of `s`.
pub open spec fn find_from(s: Seq<u8>, b: u8, i: int) -> int
    decreases s.len() - i,
{
    if i < 0 || i >= s.len() {
        s.len() as int
    } else if s[i] == b {
        i
    } else {
        find_from(s, b, i + 1)
    }
}

/// The module field without its surrounding brackets.
pub open spec fn strip_brackets(m: Seq<u8>) -> Seq<u8> {
    let a = if m.len() > 0 && m[0] == 91u8 { 1int } else { 0int };
    let b = if m.len() > a && m[m.len() - 1] == 93u8 { m.len() - 1 } else { m.len() as int };
    m.subrange(a, b)
}

/// One line: `<hex address> <type> <name>` with an optional tab and module.
/// Lines of another shape, or with more than 16 address digits, give nothing.
pub open spec fn parse_line(l: Seq<u8>) -> Option<KernelSymbolView> {
    let h = hex_run(l, 0);
    if h < 1 || h > 16 || l.len() < h + 3 || l[h] != 32u8 || l[h + 2] != 32u8 {
        None
    } else {
        let rest = l.subrange(h + 3, l.len() as int);
        let tab = find_from(rest, 9u8, 0);
        Some(
            (
                hex_value(l, h) as u64,
                rest.subrange(0, tab),
                if tab < rest.len() {
                    Some(strip_brackets(rest.subrange(tab + 1, rest.len() as int)))
                } else {
                    None
                },
            ),
        )
    }
}

/// The symbols of the lines of `data` from position `pos` on, in order,
/// without those at address zero.
pub open spec fn parsed_symbols(data: Seq<u8>, pos: int) -> Seq<KernelSymbolView>
    decreases data.len() - pos,
{
    if pos < 0 || pos >= data.len() {
        Seq::empty()
    } else {
        let end = find_from(data, 10u8, pos);
        if end < pos {
            Seq::empty()
        } else {
            let rest = if end + 1 < data.len() {
                parsed_symbols(data, end + 1)
            } else {
                Seq::empty()
            };
            match parse_line(data.subrange(pos, end)) {
                Some(s) => if s.0 != 0 {
                    seq![s] + rest
                } else {
                    rest
                },
                None => rest,
            }
        }
    }
}

/// Position of the first `b` in `s[from..to)`, or `to`.
fn find_byte(s: &[u8], b: u8, from: usize, to: usize) -> (r: usize)
    requires
        from <= to <= s@.len(),
    ensures
        from <= r <= to,
        forall|k: int| from <= k < r ==> #[trigger] s@[k] != b,
        r < to ==> s@[r as int] == b,
{
    let mut i: usize = from;
    while i < to && s[i] != b
        invariant
            from <= i <= to,
            to <= s@.len(),
            forall|k: int| from <= k < i ==> #[trigger] s@[k] != b,
        decreases to - i,
    {
        i = i + 1;
    }
    i
}

/// `find_from` finds the first `b` at or after `i`.
proof fn lemma_find_char(t: Seq<u8>, b: u8, i: int, r: int)
    requires
        0 <= i <= r <= t.len(),
        forall|k: int| i <= k < r ==> #[trigger] t[k] != b,
        r == t.len() || t[r] == b,
    ensures
        find_from(t, b, i) == r,
    decreases r - i,
{
    if i < r {
        lemma_find_char(t, b, i + 1, r);
    }
}

fn hex_digit_value(c: u8) -> (r: Option<u64>)
    ensures
        r matches Some(v) ==> hex_digit(c) == Some(v as nat) && v < 16,
        r is None <==> hex_digit(c) is None,
{
    if 48 <= c && c <= 57 {
        Some((c - 48) as u64)
    } else if 97 <= c && c <= 102 {
        Some((c - 87) as u64)
    } else if 65 <= c && c <= 70 {
        Some((c - 55) as u64)
    } else {
        None
    }
}

fn copy_range(s: &[u8], a: usize, b: usize) -> (r: Vec<u8>)
    requires
        a <= b <= s@.len(),
    ensures
        r@ == s@.subrange(a as int, b as int),
{
    let mut out: Vec<u8> = Vec::new();
    let mut i: usize = a;
    while i < b
        invariant
            a <= i <= b,
            b <= s@.len(),
            out@ == s@.subrange(a as int, i as int),
        decreases b - i,
    {
        out.push(s[i]);
        proof {
            assert(s@.subrange(a as int, i as int + 1) =~= s@.subrange(a as int, i as int).push(s@[i as int]));
        }
        i = i + 1;
    }
    out
}

proof fn lemma_hex_value_bound(s: Seq<u8>, n: int)
    requires
        0 <= n <= s.len(),
        forall|i: int| 0 <= i < n ==> #[trigger] hex_digit(s[i]) is Some,
    ensures
        hex_value(s, n) < pow16(n as nat),
    decreases n,
{
    if n > 0 {
        lemma_hex_value_bound(s, n - 1);
        let v = hex_value(s, n - 1);
        let d = hex_digit(s[n - 1])->Some_0;
        assert(d < 16);
        let p = pow16((n - 1) as nat);
        assert(v * 16 + d < p * 16) by (nonlinear_arith)
            requires v < p, d < 16;
    }
}

pub open spec fn pow16(n: nat) -> nat
    decreases n,
{
    if n == 0 {
        1
    } else {
        16 * pow16((n - 1) as nat)
    }
}

proof fn lemma_pow16_mono(a: nat, b: nat)
    requires
        a <= b,
    ensures
        pow16(a) <= pow16(b),
    decreases b,
{
    if a < b {
        lemma_pow16_mono(a, (b - 1) as nat);
    }
}

proof fn lemma_pow16_16()
    ensures
        pow16(16) == 18446744073709551616,
{
    reveal_with_fuel(pow16, 17);
}

proof fn lemma_hex_run_bounds(s: Seq<u8>, i: int)
    requires
        0 <= i <= s.len(),
    ensures
        0 <= hex_run(s, i) <= s.len() - i,
    decreases s.len() - i,
{
    if i < s.len() && hex_digit(s[i]) is Some {
        lemma_hex_run_bounds(s, i + 1);
    }
}

/// Parses one line (without its newline).
fn parse_line_bytes(l: &[u8]) -> (r: Option<KernelSymbol>)
    ensures
        r matches Some(s) ==> parse_line(l@) == Some(s@),
        r is None <==> parse_line(l@) is None,
{
    let n = l.len();
    let mut h: usize = 0;
    let mut value: u64 = 0;
    proof {
        lemma_hex_run_bounds(l@, 0);
    }
    while h < n && h <= 16
        invariant
            n == l@.len(),
            h <= 17,
            h <= n,
            forall|i: int| 0 <= i < h ==> #[trigger] hex_digit(l@[i]) is Some,
            h <= 16 ==> value as nat == hex_value(l@, h as int),
            hex_run(l@, 0) == h + hex_run(l@, h as int),
        ensures
            h > 16 || h == n || hex_digit(l@[h as int]) is None,
            h <= 17,
            h <= n,
            h <= 16 ==> value as nat == hex_value(l@, h as int),
            hex_run(l@, 0) == h + hex_run(l@, h as int),
        decreases n - h,
    {
        let d = match hex_digit_value(l[h]) {
            Some(d) => d,
            None => break,
        };
        if h < 16 {
            proof {
                lemma_hex_value_bound(l@, h as int);
                lemma_pow16_mono(h as nat, 15);
                lemma_pow16_16();
                reveal_with_fuel(pow16, 2);
                assert(pow16(16) == 16 * pow16(15));
                let p = pow16(h as nat);
                let q = pow16(15);
                assert(value * 16 + d < 16 * q) by (nonlinear_arith)
                    requires value < p, p <= q, d < 16;
            }
            value = value * 16 + d;
        }
        h = h + 1;
    }
    proof {
        lemma_hex_run_bounds(l@, h as int);
        if h <= 16 {
            assert(hex_run(l@, h as int) == 0);
        }
    }
    if h < 1 || h > 16 || n < h + 3 || l[h] != 32u8 || l[h + 2] != 32u8 {
        return None;
    }
    assert(hex_run(l@, 0) == h);
    let ra = h + 3;
    let tab = find_byte(l, 9u8, ra, n);
    let ghost rest = l@.subrange(ra as int, n as int);
    proof {
        assert forall|k: int| 0 <= k < tab - ra implies #[trigger] rest[k] != 9u8 by {
            assert(rest[k] == l@[ra + k]);
        }
        if tab < n {
            assert(rest[tab - ra] == l@[tab as int]);
        }
        lemma_find_char(rest, 9u8, 0, tab - ra);
    }
    let name = copy_range(l, ra, tab);
    let module = if tab < n {
        let mut ms = tab + 1;
        if ms < n && l[ms] == 91u8 {
            ms = ms + 1;
        }
        let mut me = n;
        if me > ms && l[me - 1] == 93u8 {
            me = me - 1;
        }
        let m = copy_range(l, ms, me);
        proof {
            let mm = rest.subrange(tab - ra + 1, rest.len() as int);
            assert(mm =~= l@.subrange(tab + 1, n as int));
            assert(strip_brackets(mm) =~= l@.subrange(ms as int, me as int));
        }
        Some(m)
    } else {
        None
    };
    let sym = KernelSymbol { address: value, name, module };
    proof {
        assert(rest.subrange(0, tab - ra) =~= l@.subrange(ra as int, tab as int));
    }
    Some(sym)
}

fn clone_symbol(s: &KernelSymbol) -> (r: KernelSymbol)
    ensures
        r@ == s@,
{
    let module = match &s.module {
        Some(m) => Some(crate::bytes::copy_bytes(m.as_slice())),
        None => None,
    };
    KernelSymbol { address: s.address, name: crate::bytes::copy_bytes(s.name.as_slice()), module }
}

/// The symbols of every line, in file order.
fn parse_all(data: &[u8]) -> (r: Vec<KernelSymbol>)
    ensures
        r@.map_values(|k: KernelSymbol| k@) == parsed_symbols(data@, 0),
{
    let n = data.len();
    let mut out: Vec<KernelSymbol> = Vec::new();
    let mut pos: usize = 0;
    while pos < n
        invariant
            n == data@.len(),
            pos <= n,
            out@.map_values(|k: KernelSymbol| k@) + parsed_symbols(data@, pos as int) == parsed_symbols(data@, 0),
        decreases n - pos,
    {
        let end = find_byte(data, 10u8, pos, n);
        proof {
            lemma_find_char(data@, 10u8, pos as int, end as int);
        }
        let line = &data[pos..end];
        let parsed = parse_line_bytes(line);
        let ghost before = out@.map_values(|k: KernelSymbol| k@);
        let ghost rest = parsed_symbols(data@, end + 1);
        proof {
            assert(line@ == data@.subrange(pos as int, end as int));
            if end + 1 >= n {
                assert(rest == Seq::<KernelSymbolView>::empty());
            }
        }
        match parsed {
            Some(sym) => {
                if sym.address != 0 {
                    let ghost sv = sym@;
                    out.push(sym);
                    proof {
                        assert(out@.map_values(|k: KernelSymbol| k@) =~= before.push(sv));
                        assert(before.push(sv) + rest =~= before + (seq![sv] + rest));
                    }
                }
            },
            None => {},
        }
        pos = if end < n {
            end + 1
        } else {
            n
        };
    }
    proof {
        assert(parsed_symbols(data@, pos as int) == Seq::<KernelSymbolView>::empty());
        assert(out@.map_values(|k: KernelSymbol| k@) + Seq::<KernelSymbolView>::empty() =~= out@.map_values(|k: KernelSymbol| k@));
    }
    out
}

/// Some key refers to position `m`.
pub open spec fn lists_position(keys: Seq<(u64, usize)>, m: int) -> bool {
    exists|i: int| 0 <= i < keys.len() && #[trigger] keys[i].1 == m
}

/// Positions of `syms` ordered by address; equal addresses keep file order.
fn address_order(syms: &Vec<KernelSymbol>) -> (r: Vec<(u64, usize)>)
    ensures
        forall|i: int, j: int| 0 <= i < j < r@.len() ==> #[trigger] r@[i].0 <= #[trigger] r@[j].0,
        forall|i: int| 0 <= i < r@.len() ==> #[trigger] r@[i].1 < syms@.len() && r@[i].0 == syms@[r@[i].1 as int].address,
        forall|m: int| 0 <= m < syms@.len() ==> #[trigger] lists_position(r@, m),
{
    let mut keys: Vec<(u64, usize)> = Vec::new();
    let mut m: usize = 0;
    while m < syms.len()
        invariant
            m <= syms@.len(),
            forall|i: int, j: int| 0 <= i < j < keys@.len() ==> #[trigger] keys@[i].0 <= #[trigger] keys@[j].0,
            forall|i: int| 0 <= i < keys@.len() ==> #[trigger] keys@[i].1 < m && keys@[i].0 == syms@[keys@[i].1 as int].address,
            forall|q: int| 0 <= q < m ==> #[trigger] lists_position(keys@, q),
        decreases syms@.len() - m,
    {
        let a = syms[m].address;
        let mut lo: usize = 0;
        let mut hi: usize = keys.len();
        while lo < hi
            invariant
                lo <= hi <= keys@.len(),
                forall|i: int, j: int| 0 <= i < j < keys@.len() ==> #[trigger] keys@[i].0 <= #[trigger] keys@[j].0,
                forall|i: int| 0 <= i < lo ==> #[trigger] keys@[i].0 <= a,
                forall|i: int| hi <= i < keys@.len() ==> #[trigger] keys@[i].0 > a,
            decreases hi - lo,
        {
            let mid = lo + (hi - lo) / 2;
            if keys[mid].0 <= a {
                lo = mid + 1;
            } else {
                hi = mid;
            }
        }
        let ghost before = keys@;
        keys.insert(lo, (a, m));
        proof {
            assert(keys@ == before.insert(lo as int, (a, m)));
            assert forall|i: int, j: int| 0 <= i < j < keys@.len() implies #[trigger] keys@[i].0 <= #[trigger] keys@[j].0 by {
                if j < lo {
                } else if j == lo {
                } else if i < lo {
                    assert(before[i].0 <= before[j - 1].0);
                } else if i == lo {
                } else {
                    assert(before[i - 1].0 <= before[j - 1].0);
                }
            }
            assert forall|q: int| 0 <= q < m + 1 implies #[trigger] lists_position(keys@, q) by {
                if q == m {
                    assert(keys@[lo as int].1 == q);
                } else {
                    assert(lists_position(before, q));
                    let i = choose|i: int| 0 <= i < before.len() && #[trigger] before[i].1 == q;
                    if i < lo {
                        assert(keys@[i].1 == q);
                    } else {
                        assert(keys@[i + 1].1 == q);
                    }
                }
            }
        }
        m = m + 1;
    }
    keys
}

/// `r` is the kernel symbol table of the text `data`: its symbols are
/// those of the text, each starting its range at its address, the ranges
/// following on each other up to the top of the address space, and every
/// symbol address below the top starting a range.
pub open spec fn kallsyms_table(data: Seq<u8>, r: RangeMap<KernelSymbol>) -> bool {
    let syms = parsed_symbols(data, 0);
    &&& r.wf()
    &&& forall|i: int| 0 <= i < r@.len() ==> syms.contains(#[trigger] r@[i].2@)
    &&& forall|i: int| 0 <= i < r@.len() ==> #[trigger] r@[i].0 == r@[i].2.address
    &&& forall|i: int| 0 <= i < r@.len() - 1 ==> #[trigger] r@[i].1 == r@[i + 1].0
    &&& r@.len() > 0 ==> r@.last().1 == u64::MAX
    &&& forall|k: int|
        0 <= k < syms.len() && #[trigger] syms[k].0 < u64::MAX ==> exists|i: int|
            0 <= i < r@.len() && r@[i].0 == syms[k].0
}

/// The address that ends the range of the symbol at sorted position `i - 1`.
pub open spec fn next_addr(order: Seq<(u64, usize)>, i: int) -> u64 {
    if i < order.len() {
        order[i].0
    } else {
        u64::MAX
    }
}

/// Parses kernel symbols in `/proc/kallsyms` form. Each symbol covers the
/// addresses from its own up to the next higher symbol address, the highest
/// one up to the top of the address space; where several symbols share an
/// address, the last of them in the text keeps it.
pub fn parse(data: &[u8]) -> (r: RangeMap<KernelSymbol>)
    ensures
        kallsyms_table(data@, r),
{
    let syms = parse_all(data);
    let ghost pv = parsed_symbols(data@, 0);
    let order = address_order(&syms);
    let mut map: RangeMap<KernelSymbol> = RangeMap::new();
    let mut i: usize = 0;
    while i < order.len()
        invariant
            map.wf(),
            i <= order@.len(),
            syms@.map_values(|k: KernelSymbol| k@) == pv,
            forall|a: int, b: int| 0 <= a < b < order@.len() ==> #[trigger] order@[a].0 <= #[trigger] order@[b].0,
            forall|a: int|
                0 <= a < order@.len() ==> #[trigger] order@[a].1 < syms@.len() && order@[a].0 == syms@[order@[a].1 as int].address,
            forall|q: int| 0 <= q < map@.len() ==> pv.contains(#[trigger] map@[q].2@),
            forall|q: int| 0 <= q < map@.len() ==> #[trigger] map@[q].0 == map@[q].2.address,
            forall|q: int| 0 <= q < map@.len() - 1 ==> #[trigger] map@[q].1 == map@[q + 1].0,
            map@.len() > 0 ==> map@.last().1 == next_addr(order@, i as int),
            forall|a: int|
                0 <= a < i && #[trigger] order@[a].0 < next_addr(order@, i as int) ==> exists|q: int|
                    0 <= q < map@.len() && map@[q].0 == order@[a].0,
        decreases order@.len() - i,
    {
        let (start, idx) = order[i];
        let end = if i + 1 < order.len() {
            order[i + 1].0
        } else {
            u64::MAX
        };
        let ghost before = map@;
        if start < end {
            let sym = clone_symbol(&syms[idx]);
            proof {
                assert(pv[idx as int] == syms@[idx as int]@);
                assert(pv.contains(sym@));
                assert forall|q: int| 0 <= q < before.len() implies crate::range_map::ranges_disjoint(
                    #[trigger] before[q].0,
                    before[q].1,
                    start,
                    end,
                ) by {
                    if q < before.len() - 1 {
                        assert(before[q].1 <= before[before.len() - 1].0);
                    }
                }
            }
            let ghost sv = sym@;
            let ghost sym_addr = sym.address;
            let pushed = map.push(start, end, sym);
            proof {
                let k = choose|k: int| 0 <= k <= before.len() && map@ == before.insert(k, (start, end, sym));
                if k < before.len() {
                    assert(map@[k + 1] == before[k]);
                    assert(map@[k].1 <= map@[k + 1].0);
                    assert(before[k].0 < before[k].1);
                    if k < before.len() - 1 {
                        assert(before[k].1 <= before[before.len() - 1].0);
                    }
                    assert(false);
                }
                assert(map@ =~= before.push((start, end, map@.last().2)));
                assert(map@.last().2@ == sv);
                assert forall|a: int|
                    0 <= a < i + 1 && #[trigger] order@[a].0 < next_addr(order@, i + 1) implies exists|q: int|
                    0 <= q < map@.len() && map@[q].0 == order@[a].0 by {
                    if order@[a].0 == start {
                        assert(map@[before.len() as int].0 == start);
                    } else {
                        assert(order@[a].0 <= start);
                        let q = choose|q: int| 0 <= q < before.len() && before[q].0 == order@[a].0;
                        assert(map@[q] == before[q]);
                    }
                }
                assert forall|q: int| 0 <= q < map@.len() implies pv.contains(#[trigger] map@[q].2@) by {
                    if q < before.len() {
                        assert(map@[q] == before[q]);
                    }
                }
            }
        } else {
            proof {
                assert forall|a: int|
                    0 <= a < i + 1 && #[trigger] order@[a].0 < next_addr(order@, i + 1) implies exists|q: int|
                    0 <= q < map@.len() && map@[q].0 == order@[a].0 by {
                    assert(order@[a].0 <= start);
                }
            }
        }
        i = i + 1;
    }
    proof {
        assert forall|k: int|
            0 <= k < pv.len() && #[trigger] pv[k].0 < u64::MAX implies exists|q: int|
                0 <= q < map@.len() && map@[q].0 == pv[k].0 by {
            assert(lists_position(order@, k));
            let a = choose|a: int| 0 <= a < order@.len() && #[trigger] order@[a].1 == k;
            assert(pv[k] == syms@[k]@);
            assert(order@[a].0 < next_addr(order@, i as int));
        }
    }
    map
}

} // verus!
