use vstd::prelude::*;

verus! {

/// Unsigned value of `s` read least significant byte first.
pub open spec fn le_value(s: Seq<u8>) -> nat
    decreases s.len(),
{
    if s.len() == 0 {
        0
    } else {
        (s[0] + 256 * le_value(s.drop_first())) as nat
    }
}

/// Unsigned value of `s` read most significant byte first.
pub open spec fn be_value(s: Seq<u8>) -> nat
    decreases s.len(),
{
    if s.len() == 0 {
        0
    } else {
        (be_value(s.drop_last()) * 256 + s.last()) as nat
    }
}

/// Unsigned value of the `width` bytes of `s` at `offset`, in the given byte order.
pub open spec fn uint_at(s: Seq<u8>, offset: int, width: int, big_endian: bool) -> nat {
    if big_endian {
        be_value(s.subrange(offset, offset + width))
    } else {
        le_value(s.subrange(offset, offset + width))
    }
}

pub open spec fn pow256(n: nat) -> nat
    decreases n,
{
    if n == 0 {
        1
    } else {
        256 * pow256((n - 1) as nat)
    }
}

proof fn lemma_pow256_mono(a: nat, b: nat)
    requires
        a <= b,
    ensures
        pow256(a) <= pow256(b),
    decreases b,
{
    if a < b {
        lemma_pow256_mono(a, (b - 1) as nat);
    }
}

proof fn lemma_pow256_7()
    ensures
        pow256(7) == 72057594037927936,
{
    reveal_with_fuel(pow256, 8);
}

/// Reads an unsigned integer of `width` bytes at `offset`.
pub fn read_uint(b: &[u8], offset: usize, width: usize, big_endian: bool) -> (r: u64)
    requires
        width <= 8,
        offset + width <= b@.len(),
    ensures
        r as nat == uint_at(b@, offset as int, width as int, big_endian),
{
    let n: usize = b.len();
    assert(offset + width <= n);
    let end = offset + width;
    let mut acc: u64 = 0;
    if big_endian {
        let mut i: usize = offset;
        while i < end
            invariant
                offset <= i <= end,
                end == offset + width,
                end <= b@.len(),
                width <= 8,
                acc as nat == be_value(b@.subrange(offset as int, i as int)),
                (acc as nat) < pow256((i - offset) as nat),
            decreases end - i,
        {
            proof {
                lemma_pow256_mono((i - offset) as nat, 7);
                lemma_pow256_7();
                let p = pow256((i - offset) as nat);
                assert(acc * 256 + 255 < p * 256) by (nonlinear_arith)
                    requires acc < p;
                let s = b@.subrange(offset as int, i as int + 1);
                assert(s.drop_last() =~= b@.subrange(offset as int, i as int));
            }
            acc = acc * 256 + b[i] as u64;
            i = i + 1;
        }
    } else {
        let mut i: usize = end;
        while i > offset
            invariant
                offset <= i <= end,
                end == offset + width,
                end <= b@.len(),
                width <= 8,
                acc as nat == le_value(b@.subrange(i as int, end as int)),
                (acc as nat) < pow256((end - i) as nat),
            decreases i - offset,
        {
            proof {
                lemma_pow256_mono((end - i) as nat, 7);
                lemma_pow256_7();
                let p = pow256((end - i) as nat);
                assert(acc * 256 + 255 < p * 256) by (nonlinear_arith)
                    requires acc < p;
                let s = b@.subrange(i as int - 1, end as int);
                assert(s.drop_first() =~= b@.subrange(i as int, end as int));
            }
            acc = b[i - 1] as u64 + 256 * acc;
            i = i - 1;
        }
    }
    acc
}

/// Position of the first NUL byte of `s` at or after `i`, or the length of `s`.
pub open spec fn nul_from(s: Seq<u8>, i: int) -> int
    decreases s.len() - i,
{
    if i >= s.len() || i < 0 {
        s.len() as int
    } else if s[i] == 0 {
        i
    } else {
        nul_from(s, i + 1)
    }
}

/// The NUL-terminated string that starts at `offset` (without its NUL).
pub open spec fn cstr_at(s: Seq<u8>, offset: int) -> Seq<u8> {
    s.subrange(offset, nul_from(s, offset))
}

proof fn lemma_nul_from_bounds(s: Seq<u8>, i: int)
    requires
        0 <= i <= s.len(),
    ensures
        i <= nul_from(s, i) <= s.len(),
    decreases s.len() - i,
{
    if i < s.len() && s[i] != 0 {
        lemma_nul_from_bounds(s, i + 1);
    }
}

/// Copies the NUL-terminated string at `offset`.
pub fn read_cstr(b: &[u8], offset: usize) -> (r: Vec<u8>)
    requires
        offset <= b@.len(),
    ensures
        r@ == cstr_at(b@, offset as int),
{
    let mut out: Vec<u8> = Vec::new();
    let mut i: usize = offset;
    proof {
        lemma_nul_from_bounds(b@, offset as int);
    }
    while i < b.len() && b[i] != 0
        invariant
            offset <= i <= b@.len(),
            nul_from(b@, offset as int) == nul_from(b@, i as int),
            out@ == b@.subrange(offset as int, i as int),
        decreases b@.len() - i,
    {
        out.push(b[i]);
        proof {
            assert(b@.subrange(offset as int, i as int + 1) =~= b@.subrange(offset as int, i as int).push(b@[i as int]));
        }
        i = i + 1;
    }
    out
}

/// A copy of the bytes.
pub fn copy_bytes(s: &[u8]) -> (r: Vec<u8>)
    ensures
        r@ == s@,
{
    let mut out: Vec<u8> = Vec::new();
    let mut i: usize = 0;
    while i < s.len()
        invariant
            i <= s@.len(),
            out@ == s@.subrange(0, i as int),
        decreases s@.len() - i,
    {
        out.push(s[i]);
        proof {
            assert(s@.subrange(0, i as int + 1) =~= s@.subrange(0, i as int).push(s@[i as int]));
        }
        i = i + 1;
    }
    assert(s@.subrange(0, s@.len() as int) =~= s@);
    out
}

/// Whether two byte strings are equal.
pub fn same_bytes(a: &[u8], b: &[u8]) -> (r: bool)
    ensures
        r == (a@ == b@),
{
    if a.len() != b.len() {
        return false;
    }
    let mut i: usize = 0;
    while i < a.len()
        invariant
            a@.len() == b@.len(),
            i <= a@.len(),
            forall|q: int| 0 <= q < i ==> a@[q] == b@[q],
        decreases a@.len() - i,
    {
        if a[i] != b[i] {
            return false;
        }
        i = i + 1;
    }
    assert(a@ =~= b@);
    true
}

} // verus!
