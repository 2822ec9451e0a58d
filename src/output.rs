use vstd::prelude::*;

use crate::BinaryId;
use crate::collate::Collation;
use crate::demangle::{DemangleCache, display_name_spec, cache_after};
use crate::frame::{Binary, Frame, Process, Table};
use crate::kallsyms::KernelSymbol;

verus! {

/// Decimal digits of `n`.
pub open spec fn dec(n: nat) -> Seq<u8>
    decreases n,
{
    if n < 10 {
        seq![(48 + n) as u8]
    } else {
        dec(n / 10).push((48 + n % 10) as u8)
    }
}

/// Upper-case hexadecimal digit for `d < 16`.
pub open spec fn hex_char(d: nat) -> u8 {
    if d < 10 { (48 + d) as u8 } else { (55 + d) as u8 }
}

/// The `k` low hexadecimal digits of `n`, most significant first.
pub open spec fn hex_digits(n: nat, k: nat) -> Seq<u8>
    decreases k,
{
    if k == 0 {
        Seq::empty()
    } else {
        hex_digits(n / 16, (k - 1) as nat).push(hex_char(n % 16))
    }
}

/// `0x` and sixteen hexadecimal digits.
pub open spec fn hex_address(n: u64) -> Seq<u8> {
    seq![48u8, 120u8] + hex_digits(n as nat, 16)
}

pub open spec fn pid_open() -> Seq<u8> { seq![91u8, 80u8, 73u8, 68u8, 61u8] }
pub open spec fn thread_open() -> Seq<u8> { seq![91u8, 84u8, 72u8, 82u8, 69u8, 65u8, 68u8, 61u8] }
pub open spec fn main_thread_text() -> Seq<u8> {
    seq![91u8, 77u8, 65u8, 73u8, 78u8, 95u8, 84u8, 72u8, 82u8, 69u8, 65u8, 68u8, 93u8]
}
pub open spec fn linux_module_open() -> Seq<u8> { seq![32u8, 91u8, 108u8, 105u8, 110u8, 117u8, 120u8, 58u8] }
pub open spec fn kernel_close() -> Seq<u8> { seq![93u8, 95u8, 91u8, 107u8, 93u8] }
pub open spec fn linux_plain() -> Seq<u8> {
    seq![32u8, 91u8, 108u8, 105u8, 110u8, 117u8, 120u8, 93u8, 95u8, 91u8, 107u8, 93u8]
}
pub open spec fn kernel_tag() -> Seq<u8> { seq![95u8, 91u8, 107u8, 93u8] }

/// `" [" + s + "]"`.
pub open spec fn bracketed(s: Seq<u8>) -> Seq<u8> {
    seq![32u8, 91u8] + s + seq![93u8]
}

/// The raw name of the symbol that a user symbol frame refers to.
pub open spec fn raw_symbol_name(b: Binary, index: usize, table: Table, address_space_name: Option<Seq<u8>>) -> Option<
    Seq<u8>,
> {
    match table {
        Table::Debug => match b.debug_symbols {
            Some(s) => if index < s@.len() { Some(s@[index as int].2) } else { None },
            None => None,
        },
        Table::Original => match b.symbols {
            Some(s) => if index < s@.len() { Some(s@[index as int].2) } else { None },
            None => None,
        },
        Table::AddressSpace => address_space_name,
    }
}

/// The text of one frame; `None` when what it refers to is not in the collation.
pub open spec fn frame_text(c: Collation, frame: Frame, address_space_name: Option<Seq<u8>>) -> Option<Seq<u8>> {
    match frame {
        Frame::Process(pid) => {
            let tail = pid_open() + dec(pid as nat) + seq![93u8];
            if c.process_index_by_pid@.contains_key(pid) {
                Some(c.processes@[c.process_index_by_pid@[pid] as int].executable@ + seq![32u8] + tail)
            } else {
                Some(tail)
            }
        },
        Frame::MainThread => Some(main_thread_text()),
        Frame::Thread(tid) => {
            let tail = thread_open() + dec(tid as nat) + seq![93u8];
            if c.thread_names@.contains_key(tid) {
                Some(c.thread_names@[tid]@ + seq![32u8] + tail)
            } else {
                Some(tail)
            }
        },
        Frame::UserSymbol(id, index, table) => if c.binary_by_id@.contains_key(id) {
            let b = c.binary_by_id@[id];
            match raw_symbol_name(b, index, table, address_space_name) {
                Some(raw) => Some(display_name_spec(raw) + bracketed(b.basename@)),
                None => None,
            }
        } else {
            None
        },
        Frame::UserBinary(id, addr) => if c.binary_by_id@.contains_key(id) {
            Some(hex_address(addr) + bracketed(c.binary_by_id@[id].basename@))
        } else {
            None
        },
        Frame::User(addr) => Some(hex_address(addr)),
        Frame::KernelSymbol(index) => if index < c.kallsyms@.len() {
            let s = c.kallsyms@[index as int].2;
            match s.module {
                Some(m) => Some(s.name@ + linux_module_open() + m@ + kernel_close()),
                None => Some(s.name@ + linux_plain()),
            }
        } else {
            None
        },
        Frame::Kernel(addr) => Some(hex_address(addr) + kernel_tag()),
    }
}

fn push_all(out: &mut Vec<u8>, s: &[u8])
    ensures
        final(out)@ == old(out)@ + s@,
{
    let mut i: usize = 0;
    while i < s.len()
        invariant
            i <= s@.len(),
            out@ == old(out)@ + s@.subrange(0, i as int),
        decreases s@.len() - i,
    {
        out.push(s[i]);
        proof {
            assert(s@.subrange(0, i as int + 1) =~= s@.subrange(0, i as int).push(s@[i as int]));
        }
        i = i + 1;
    }
    proof {
        assert(s@.subrange(0, s@.len() as int) =~= s@);
    }
}

/// Appends the decimal digits of `n`.
pub fn write_dec(out: &mut Vec<u8>, n: u64)
    ensures
        final(out)@ == old(out)@ + dec(n as nat),
    decreases n,
{
    if n >= 10 {
        write_dec(out, n / 10);
    }
    let d = (48 + n % 10) as u8;
    out.push(d);
    proof {
        if n < 10 {
            assert(dec(n as nat) =~= seq![d]);
        }
    }
}

fn write_hex_digits(out: &mut Vec<u8>, n: u64, k: u32)
    ensures
        final(out)@ == old(out)@ + hex_digits(n as nat, k as nat),
    decreases k,
{
    if k == 0 {
        assert(old(out)@ + hex_digits(n as nat, 0) =~= old(out)@);
        return;
    }
    write_hex_digits(out, n / 16, k - 1);
    let d = n % 16;
    let c = if d < 10 { (48 + d) as u8 } else { (55 + d) as u8 };
    out.push(c);
}

/// Appends `0x` and the sixteen hexadecimal digits of `n`.
pub fn write_hex_address(out: &mut Vec<u8>, n: u64)
    ensures
        final(out)@ == old(out)@ + hex_address(n),
{
    out.push(48u8);
    out.push(120u8);
    let ghost mid = out@;
    write_hex_digits(out, n, 16);
    proof {
        assert(mid =~= old(out)@ + seq![48u8, 120u8]);
    }
}

/// The unwinder's name for frame `i`, if given.
pub open spec fn name_at(names: Seq<Option<Vec<u8>>>, i: int) -> Option<Seq<u8>> {
    if 0 <= i < names.len() {
        match names[i] {
            Some(n) => Some(n@),
            None => None,
        }
    } else {
        None
    }
}

/// The texts of the last `k` frames, from the last one back, joined by `;`.
pub open spec fn stack_text(c: Collation, frames: Seq<Frame>, names: Seq<Option<Vec<u8>>>, k: int) -> Option<Seq<u8>>
    decreases k,
{
    if k <= 0 {
        Some(Seq::empty())
    } else {
        let i = frames.len() - k;
        match (stack_text(c, frames, names, k - 1), frame_text(c, frames[i], name_at(names, i))) {
            (Some(prev), Some(t)) => Some(if k > 1 { prev + seq![59u8] + t } else { t }),
            _ => None,
        }
    }
}

/// Turns the frames of a collation into text.
pub struct Decoder<'a> {
    pub collation: &'a Collation,
    pub demangle_cache: DemangleCache,
}

impl<'a> Decoder<'a> {
    pub open spec fn wf(&self) -> bool {
        self.collation.wf() && self.demangle_cache.wf()
    }

    pub fn new(collation: &'a Collation) -> (r: Self)
        requires
            collation.wf(),
        ensures
            r.wf(),
            r.collation == collation,
    {
        Decoder { collation, demangle_cache: DemangleCache::new() }
    }

    /// The binary with this id.
    pub fn get_binary(&self, binary_id: &BinaryId) -> (r: Option<&'a Binary>)
        requires
            self.wf(),
        ensures
            r matches Some(b) ==> self.collation.binary_by_id@.contains_key(*binary_id)
                && *b == self.collation.binary_by_id@[*binary_id],
            r is None <==> !self.collation.binary_by_id@.contains_key(*binary_id),
    {
        self.collation.binary_by_id.get(binary_id)
    }

    /// The kernel symbol at this index.
    pub fn get_kernel_symbol(&self, symbol_index: usize) -> (r: Option<&'a KernelSymbol>)
        requires
            self.wf(),
        ensures
            symbol_index < self.collation.kallsyms@.len() ==> r == Some(
                &self.collation.kallsyms@[symbol_index as int].2,
            ),
            symbol_index >= self.collation.kallsyms@.len() ==> r is None,
    {
        self.collation.kallsyms.get_value_by_index(symbol_index)
    }

    /// The name of a thread, if it has one.
    pub fn get_thread_name(&self, tid: u32) -> (r: Option<&'a Vec<u8>>)
        requires
            self.wf(),
        ensures
            r matches Some(n) ==> self.collation.thread_names@.contains_key(tid) && *n
                == self.collation.thread_names@[tid],
            r is None <==> !self.collation.thread_names@.contains_key(tid),
    {
        self.collation.thread_names.get(&tid)
    }

    /// The process with this pid.
    pub fn get_process(&self, pid: u32) -> (r: Option<&'a Process>)
        requires
            self.wf(),
        ensures
            r matches Some(p) ==> self.collation.process_index_by_pid@.contains_key(pid) && *p
                == self.collation.processes@[self.collation.process_index_by_pid@[pid] as int],
            r is None <==> !self.collation.process_index_by_pid@.contains_key(pid),
    {
        match self.collation.process_index_by_pid.get(&pid) {
            Some(i) => Some(&self.collation.processes[*i]),
            None => None,
        }
    }

    /// The name to show for a user symbol frame's symbol, demangled where
    /// possible, and its binary. `address_space_name` is the raw name that
    /// the unwinder's tables give for a frame of that source.
    pub fn get_user_symbol(
        &mut self,
        binary_id: &BinaryId,
        symbol_index: usize,
        table: Table,
        address_space_name: Option<&[u8]>,
    ) -> (r: Option<(Vec<u8>, &'a Binary)>)
        requires
            old(self).wf(),
        ensures
            final(self).wf(),
            final(self).collation == old(self).collation,
            ({
                let c = *old(self).collation;
                let asn = match address_space_name {
                    Some(n) => Some(n@),
                    None => None,
                };
                &&& r is Some <==> (c.binary_by_id@.contains_key(*binary_id) && raw_symbol_name(
                    c.binary_by_id@[*binary_id],
                    symbol_index,
                    table,
                    asn,
                ) is Some)
                &&& r matches Some(p) ==> *p.1 == c.binary_by_id@[*binary_id] && p.0@ == display_name_spec(
                    raw_symbol_name(c.binary_by_id@[*binary_id], symbol_index, table, asn)->Some_0,
                )
                &&& r is Some ==> final(self).demangle_cache@ == cache_after(
                    old(self).demangle_cache@,
                    raw_symbol_name(c.binary_by_id@[*binary_id], symbol_index, table, asn)->Some_0,
                )
                &&& r is None ==> final(self).demangle_cache@ == old(self).demangle_cache@
            }),
    {
        let binary = match self.collation.binary_by_id.get(binary_id) {
            Some(b) => b,
            None => return None,
        };
        let raw: &[u8] = match table {
            Table::Debug => match &binary.debug_symbols {
                Some(s) => match s.get_symbol_by_index(symbol_index) {
                    Some(sym) => sym.name.as_slice(),
                    None => return None,
                },
                None => return None,
            },
            Table::Original => match &binary.symbols {
                Some(s) => match s.get_symbol_by_index(symbol_index) {
                    Some(sym) => sym.name.as_slice(),
                    None => return None,
                },
                None => return None,
            },
            Table::AddressSpace => match address_space_name {
                Some(n) => n,
                None => return None,
            },
        };
        let shown = self.demangle_cache.display_name(raw);
        Some((shown, binary))
    }

    /// Appends the text of `frame` to `output`. Returns false, leaving the
    /// output as it was, when the frame refers to something the collation
    /// does not hold.
    pub fn write_frame(&mut self, output: &mut Vec<u8>, frame: &Frame, address_space_name: Option<&[u8]>) -> (r: bool)
        requires
            old(self).wf(),
        ensures
            final(self).wf(),
            final(self).collation == old(self).collation,
            ({
                let asn = match address_space_name {
                    Some(n) => Some(n@),
                    None => None,
                };
                match frame_text(*old(self).collation, *frame, asn) {
                    Some(t) => r && final(output)@ == old(output)@ + t,
                    None => !r && final(output)@ == old(output)@,
                }
            }),
    {
        let ghost start = output@;
        match *frame {
            Frame::Process(pid) => {
                match self.get_process(pid) {
                    Some(process) => {
                        push_all(output, process.executable.as_slice());
                        output.push(32u8);
                    },
                    None => {},
                }
                let open: Vec<u8> = vec![91u8, 80u8, 73u8, 68u8, 61u8];
                push_all(output, open.as_slice());
                write_dec(output, pid as u64);
                output.push(93u8);
                proof {
                    assert(open@ =~= pid_open());
                    let tail = pid_open() + dec(pid as nat) + seq![93u8];
                    if self.collation.process_index_by_pid@.contains_key(pid) {
                        let e = self.collation.processes@[self.collation.process_index_by_pid@[pid] as int].executable@;
                        assert(output@ =~= start + (e + seq![32u8] + tail));
                    } else {
                        assert(output@ =~= start + tail);
                    }
                }
                true
            },
            Frame::MainThread => {
                let text: Vec<u8> = vec![91u8, 77u8, 65u8, 73u8, 78u8, 95u8, 84u8, 72u8, 82u8, 69u8, 65u8, 68u8, 93u8];
                push_all(output, text.as_slice());
                assert(text@ =~= main_thread_text());
                true
            },
            Frame::Thread(tid) => {
                match self.get_thread_name(tid) {
                    Some(name) => {
                        push_all(output, name.as_slice());
                        output.push(32u8);
                    },
                    None => {},
                }
                let open: Vec<u8> = vec![91u8, 84u8, 72u8, 82u8, 69u8, 65u8, 68u8, 61u8];
                push_all(output, open.as_slice());
                write_dec(output, tid as u64);
                output.push(93u8);
                proof {
                    assert(open@ =~= thread_open());
                    let tail = thread_open() + dec(tid as nat) + seq![93u8];
                    if self.collation.thread_names@.contains_key(tid) {
                        let n = self.collation.thread_names@[tid]@;
                        assert(output@ =~= start + (n + seq![32u8] + tail));
                    } else {
                        assert(output@ =~= start + tail);
                    }
                }
                true
            },
            Frame::UserSymbol(binary_id, symbol_index, table) => {
                match self.get_user_symbol(&binary_id, symbol_index, table, address_space_name) {
                    Some((shown, binary)) => {
                        push_all(output, shown.as_slice());
                        output.push(32u8);
                        output.push(91u8);
                        push_all(output, binary.basename.as_slice());
                        output.push(93u8);
                        proof {
                            assert(output@ =~= start + (shown@ + bracketed(binary.basename@)));
                        }
                        true
                    },
                    None => false,
                }
            },
            Frame::UserBinary(binary_id, addr) => {
                match self.get_binary(&binary_id) {
                    Some(binary) => {
                        write_hex_address(output, addr);
                        output.push(32u8);
                        output.push(91u8);
                        push_all(output, binary.basename.as_slice());
                        output.push(93u8);
                        proof {
                            assert(output@ =~= start + (hex_address(addr) + bracketed(binary.basename@)));
                        }
                        true
                    },
                    None => false,
                }
            },
            Frame::User(addr) => {
                write_hex_address(output, addr);
                true
            },
            Frame::KernelSymbol(symbol_index) => {
                match self.get_kernel_symbol(symbol_index) {
                    Some(symbol) => {
                        push_all(output, symbol.name.as_slice());
                        match &symbol.module {
                            Some(module) => {
                                let open: Vec<u8> = vec![32u8, 91u8, 108u8, 105u8, 110u8, 117u8, 120u8, 58u8];
                                let close: Vec<u8> = vec![93u8, 95u8, 91u8, 107u8, 93u8];
                                push_all(output, open.as_slice());
                                push_all(output, module.as_slice());
                                push_all(output, close.as_slice());
                                proof {
                                    assert(open@ =~= linux_module_open());
                                    assert(close@ =~= kernel_close());
                                    assert(output@ =~= start + (symbol.name@ + linux_module_open() + module@
                                        + kernel_close()));
                                }
                            },
                            None => {
                                let plain: Vec<u8> = vec![32u8, 91u8, 108u8, 105u8, 110u8, 117u8, 120u8, 93u8, 95u8, 91u8, 107u8, 93u8];
                                push_all(output, plain.as_slice());
                                proof {
                                    assert(plain@ =~= linux_plain());
                                    assert(output@ =~= start + (symbol.name@ + linux_plain()));
                                }
                            },
                        }
                        true
                    },
                    None => false,
                }
            },
            Frame::Kernel(addr) => {
                write_hex_address(output, addr);
                let tag: Vec<u8> = vec![95u8, 91u8, 107u8, 93u8];
                push_all(output, tag.as_slice());
                proof {
                    assert(tag@ =~= kernel_tag());
                    assert(output@ =~= start + (hex_address(addr) + kernel_tag()));
                }
                true
            },
        }
    }

    /// Appends one output line: the frames of a stack from its root on,
    /// joined by `;`, then a space, the count and a newline. `names[i]` is
    /// the unwinder's name for frame `i` where that is its source. Returns
    /// false, leaving the output as it was, when a frame cannot be written.
    pub fn write_stack_line(
        &mut self,
        output: &mut Vec<u8>,
        frames: &Vec<Frame>,
        count: u64,
        names: &Vec<Option<Vec<u8>>>,
    ) -> (r: bool)
        requires
            old(self).wf(),
        ensures
            final(self).wf(),
            final(self).collation == old(self).collation,
            match stack_text(*old(self).collation, frames@, names@, frames@.len() as int) {
                Some(t) => r && final(output)@ == old(output)@ + t + seq![32u8] + dec(count as nat) + seq![10u8],
                None => !r && final(output)@ == old(output)@,
            },
    {
        let mut line: Vec<u8> = Vec::new();
        let n = frames.len();
        let mut k: usize = 0;
        while k < n
            invariant
                self.wf(),
                self.collation == old(self).collation,
                n == frames@.len(),
                k <= n,
                stack_text(*self.collation, frames@, names@, k as int) == Some(line@),
            decreases n - k,
        {
            let i = n - 1 - k;
            if k > 0 {
                line.push(59u8);
            }
            let name: Option<&[u8]> = if i < names.len() {
                match &names[i] {
                    Some(v) => Some(v.as_slice()),
                    None => None,
                }
            } else {
                None
            };
            let ghost before = line@;
            let ok = self.write_frame(&mut line, &frames[i], name);
            proof {
                assert(name_at(names@, i as int) == match name {
                    Some(v) => Some(v@),
                    None => None::<Seq<u8>>,
                });
            }
            if !ok {
                proof {
                    lemma_stack_text_stops(*self.collation, frames@, names@, k as int + 1, n as int);
                }
                return false;
            }
            proof {
                let t = frame_text(*self.collation, frames@[i as int], name_at(names@, i as int))->Some_0;
                if k > 0 {
                    assert(line@ =~= stack_text(*self.collation, frames@, names@, k as int)->Some_0 + seq![59u8] + t);
                } else {
                    assert(line@ =~= t);
                }
            }
            k = k + 1;
        }
        push_all(output, line.as_slice());
        output.push(32u8);
        write_dec(output, count);
        output.push(10u8);
        proof {
            let t = line@;
            assert(output@ =~= old(output)@ + t + seq![32u8] + dec(count as nat) + seq![10u8]);
        }
        true
    }
}

/// Once a frame cannot be written, no longer prefix of the stack can be.
proof fn lemma_stack_text_stops(c: Collation, frames: Seq<Frame>, names: Seq<Option<Vec<u8>>>, k: int, m: int)
    requires
        0 < k <= m,
        stack_text(c, frames, names, k) is None,
    ensures
        stack_text(c, frames, names, m) is None,
    decreases m - k,
{
    if m > k {
        lemma_stack_text_stops(c, frames, names, k, m - 1);
    }
}

} // verus!
