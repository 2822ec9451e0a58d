use vstd::prelude::*;

use crate::BinaryId;
use crate::filter::{OmitFilter, omitted};
use crate::keyed::KeyedVec;
use crate::range_map::RangeMap;
use crate::symbols::Symbols;
use crate::kallsyms::KernelSymbol;
use crate::chunks::BinaryChunks;
use crate::symbols::{SymbolTable, sym_contains};
use crate::histogram::{Histogram, count_stack};

verus! {

/// Which symbol source resolved a frame.
#[derive(Clone, Copy, Debug, PartialEq, Eq, Structural)]
pub enum Table {
    Debug,
    Original,
    AddressSpace,
}

/// One classified frame of a stack.
#[derive(Clone, Copy, Debug, PartialEq, Eq, Structural)]
pub enum Frame {
    Process(u32),
    Thread(u32),
    MainThread,
    User(u64),
    UserBinary(BinaryId, u64),
    UserSymbol(BinaryId, usize, Table),
    Kernel(u64),
    KernelSymbol(usize),
}

/// A frame as the unwinder returns it: the return address, and the start of
/// the instruction when it is known.
#[derive(Clone, Copy, Debug, PartialEq, Eq)]
pub struct UserFrame {
    pub address: u64,
    pub initial_address: Option<u64>,
}

/// The address used to look a frame up.
pub open spec fn effective_address(f: UserFrame) -> u64 {
    match f.initial_address {
        Some(a) => a,
        None => f.address,
    }
}

impl UserFrame {
    /// The address used to look the frame up: the start of its instruction
    /// where known, else its return address.
    pub fn lookup_address(&self) -> (r: u64)
        ensures
            r == effective_address(*self),
    {
        match self.initial_address {
            Some(a) => a,
            None => self.address,
        }
    }
}

/// A memory region of a process.
#[derive(Clone, Debug)]
pub struct Region {
    pub start: u64,
    pub end: u64,
    pub is_read: bool,
    pub is_write: bool,
    pub is_executable: bool,
    pub is_shared: bool,
    pub file_offset: u64,
    pub inode: u64,
    pub major: u32,
    pub minor: u32,
    pub name: Vec<u8>,
}

/// The binary that a region maps.
pub open spec fn region_binary_id(r: Region) -> BinaryId {
    BinaryId { inode: r.inode, dev_major: r.major, dev_minor: r.minor }
}

/// A profiled process and the state of its address space.
pub struct Process {
    pub pid: u32,
    pub executable: Vec<u8>,
    pub memory_regions: RangeMap<Region>,
    pub base_address_for_binary: KeyedVec<BinaryId, u64>,
    pub address_space_needs_reload: bool,
}

impl Process {
    pub open spec fn wf(&self) -> bool {
        self.memory_regions.wf() && self.base_address_for_binary.wf()
    }
}

/// A binary seen in the recording, with its symbol sources.
pub struct Binary {
    pub path: Vec<u8>,
    pub basename: Vec<u8>,
    pub string_tables: BinaryChunks,
    pub symbol_table_count: u16,
    pub symbol_tables_chunks: BinaryChunks,
    pub symbol_tables: Vec<SymbolTable>,
    pub symbols: Option<Symbols>,
    pub debug_symbols: Option<Symbols>,
}

impl Binary {
    pub open spec fn wf(&self) -> bool {
        &&& (self.symbols matches Some(s) ==> s.wf())
        &&& (self.debug_symbols matches Some(s) ==> s.wf())
    }
}

/// The binaries, each well formed.
pub open spec fn binaries_wf(b: KeyedVec<BinaryId, Binary>) -> bool {
    &&& b.wf()
    &&& forall|id: BinaryId| b@.contains_key(id) ==> (#[trigger] b@[id]).wf()
}

/// What the unwinder's own tables give for a frame: a symbol's index and raw name.
#[derive(Clone, Debug)]
pub struct AddressSpaceSymbol {
    pub index: usize,
    pub name: Vec<u8>,
}

/// A frame could not be classified: its region maps a binary whose base
/// address was never recorded.
#[derive(Clone, Copy, Debug, PartialEq, Eq, Structural)]
pub enum FrameError {
    MissingBaseAddress(BinaryId),
}

/// `s` holds a symbol for the binary-relative address `a - base`.
pub open spec fn source_hit(s: Option<Symbols>, a: u64, base: u64) -> bool {
    match s {
        Some(syms) => a >= base && syms.resolves(a - base),
        None => false,
    }
}

/// Index of the symbol picked in `s` for `a - base`.
pub open spec fn source_pick(s: Option<Symbols>, a: u64, base: u64) -> int {
    match s {
        Some(syms) => syms.pick(a - base),
        None => 0,
    }
}

/// Raw name of the symbol picked in `s` for `a - base`.
pub open spec fn source_name(s: Option<Symbols>, a: u64, base: u64) -> Seq<u8> {
    match s {
        Some(syms) => syms@[syms.pick(a - base)].2,
        None => Seq::empty(),
    }
}

/// How one user frame is classified. `Ok(None)` means that the frame's
/// symbol is omitted, which drops its whole stack.
pub open spec fn classify(
    omit: Option<OmitFilter>,
    fallback: Option<AddressSpaceSymbol>,
    process: Process,
    binaries: Map<BinaryId, Binary>,
    uf: UserFrame,
) -> Result<Option<Frame>, FrameError> {
    let a = effective_address(uf);
    if !process.memory_regions.covers(a) {
        Ok(Some(Frame::User(a)))
    } else {
        let id = region_binary_id(process.memory_regions.value_at(a));
        if !binaries.contains_key(id) {
            Ok(Some(Frame::User(a)))
        } else {
            let b = binaries[id];
            let needs_base = b.debug_symbols is Some || b.symbols is Some;
            let bases = process.base_address_for_binary@;
            if needs_base && !bases.contains_key(id) {
                Err(FrameError::MissingBaseAddress(id))
            } else {
                let base = bases[id];
                if needs_base && source_hit(b.debug_symbols, a, base) {
                    if omitted(omit, source_name(b.debug_symbols, a, base)) {
                        Ok(None)
                    } else {
                        Ok(Some(Frame::UserSymbol(id, source_pick(b.debug_symbols, a, base) as usize, Table::Debug)))
                    }
                } else if needs_base && source_hit(b.symbols, a, base) {
                    if omitted(omit, source_name(b.symbols, a, base)) {
                        Ok(None)
                    } else {
                        Ok(Some(Frame::UserSymbol(id, source_pick(b.symbols, a, base) as usize, Table::Original)))
                    }
                } else {
                    match fallback {
                        Some(s) => if omitted(omit, s.name@) {
                            Ok(None)
                        } else {
                            Ok(Some(Frame::UserSymbol(id, s.index, Table::AddressSpace)))
                        },
                        None => Ok(Some(Frame::UserBinary(id, a))),
                    }
                }
            }
        }
    }
}

/// Looks `a - base` up in one symbol source.
fn lookup_in(s: &Option<Symbols>, a: u64, base: u64) -> (r: Option<usize>)
    requires
        s matches Some(syms) ==> syms.wf(),
    ensures
        r is Some <==> source_hit(*s, a, base),
        r matches Some(i) ==> i == source_pick(*s, a, base) && (s matches Some(syms) && i < syms@.len()),
{
    match s {
        Some(syms) => {
            if a >= base {
                syms.get_symbol_index(a - base)
            } else {
                None
            }
        },
        None => None,
    }
}

/// Whether the symbol at `index` of a source is omitted.
fn omits_symbol(omit: &Option<OmitFilter>, syms: &Option<Symbols>, index: usize) -> (r: bool)
    requires
        syms matches Some(s) && index < s@.len(),
    ensures
        r == omitted(*omit, syms.unwrap()@[index as int].2),
{
    match omit {
        Some(f) => match syms {
            Some(s) => match s.get_symbol_by_index(index) {
                Some(sym) => f.is_match(sym.name.as_slice()),
                None => false,
            },
            None => false,
        },
        None => false,
    }
}

/// Classifies one user frame: by the region that holds its address, the
/// binary that region maps, and the first of the debug symbols, the
/// binary's own symbols and the unwinder's symbol (`fallback`) that
/// resolves it.
pub fn decode_user_frame(
    omit_regex: &Option<OmitFilter>,
    fallback: &Option<AddressSpaceSymbol>,
    process: &Process,
    binary_by_id: &KeyedVec<BinaryId, Binary>,
    user_frame: &UserFrame,
) -> (r: Result<Option<Frame>, FrameError>)
    requires
        process.wf(),
        binaries_wf(*binary_by_id),
    ensures
        r == classify(*omit_regex, *fallback, *process, binary_by_id@, *user_frame),
{
    let address = match user_frame.initial_address {
        Some(a) => a,
        None => user_frame.address,
    };
    let region = match process.memory_regions.get_value(address) {
        Some(region) => region,
        None => return Ok(Some(Frame::User(address))),
    };
    let binary_id = BinaryId { inode: region.inode, dev_major: region.major, dev_minor: region.minor };
    let binary = match binary_by_id.get(&binary_id) {
        Some(binary) => binary,
        None => return Ok(Some(Frame::User(address))),
    };
    proof {
        assert(binary.wf());
    }
    if binary.debug_symbols.is_some() || binary.symbols.is_some() {
        let base = match process.base_address_for_binary.get(&binary_id) {
            Some(base) => *base,
            None => return Err(FrameError::MissingBaseAddress(binary_id)),
        };
        if let Some(index) = lookup_in(&binary.debug_symbols, address, base) {
            if omits_symbol(omit_regex, &binary.debug_symbols, index) {
                return Ok(None);
            }
            return Ok(Some(Frame::UserSymbol(binary_id, index, Table::Debug)));
        }
        if let Some(index) = lookup_in(&binary.symbols, address, base) {
            if omits_symbol(omit_regex, &binary.symbols, index) {
                return Ok(None);
            }
            return Ok(Some(Frame::UserSymbol(binary_id, index, Table::Original)));
        }
    }
    match fallback {
        Some(s) => {
            let skip = match omit_regex {
                Some(f) => f.is_match(s.name.as_slice()),
                None => false,
            };
            if skip {
                Ok(None)
            } else {
                Ok(Some(Frame::UserSymbol(binary_id, s.index, Table::AddressSpace)))
            }
        },
        None => Ok(Some(Frame::UserBinary(binary_id, address))),
    }
}

/// The frame for a kernel address.
pub open spec fn kernel_frame(kallsyms: RangeMap<KernelSymbol>, addr: u64) -> Frame {
    if kallsyms.covers(addr) {
        Frame::KernelSymbol(kallsyms.index_at(addr) as usize)
    } else {
        Frame::Kernel(addr)
    }
}

/// The frame that marks a thread: the main one when its id is the process id.
pub open spec fn thread_frame(pid: u32, tid: u32) -> Frame {
    if pid == tid {
        Frame::MainThread
    } else {
        Frame::Thread(tid)
    }
}

/// The unwinder's symbol for user frame `i`, if it gave one.
pub open spec fn fallback_at(fallbacks: Seq<Option<AddressSpaceSymbol>>, i: int) -> Option<AddressSpaceSymbol> {
    if 0 <= i < fallbacks.len() {
        fallbacks[i]
    } else {
        None
    }
}

/// The first `n` user frames, classified in order; classification stops at
/// the first frame that fails or is omitted.
pub open spec fn user_frames(
    omit: Option<OmitFilter>,
    fallbacks: Seq<Option<AddressSpaceSymbol>>,
    process: Process,
    binaries: Map<BinaryId, Binary>,
    ufs: Seq<UserFrame>,
    n: int,
) -> Result<Option<Seq<Frame>>, FrameError>
    decreases n,
{
    if n <= 0 {
        Ok(Some(Seq::empty()))
    } else {
        match user_frames(omit, fallbacks, process, binaries, ufs, n - 1) {
            Ok(Some(s)) => match classify(omit, fallback_at(fallbacks, n - 1), process, binaries, ufs[n - 1]) {
                Ok(Some(f)) => Ok(Some(s.push(f))),
                Ok(None) => Ok(None),
                Err(e) => Err(e),
            },
            other => other,
        }
    }
}

/// Once classification has stopped, a longer prefix stops the same way.
proof fn lemma_user_frames_stop(
    omit: Option<OmitFilter>,
    fallbacks: Seq<Option<AddressSpaceSymbol>>,
    process: Process,
    binaries: Map<BinaryId, Binary>,
    ufs: Seq<UserFrame>,
    n: int,
    m: int,
)
    requires
        0 <= n <= m,
        !(user_frames(omit, fallbacks, process, binaries, ufs, n) is Ok
            && user_frames(omit, fallbacks, process, binaries, ufs, n)->Ok_0 is Some),
    ensures
        user_frames(omit, fallbacks, process, binaries, ufs, m) == user_frames(
            omit,
            fallbacks,
            process,
            binaries,
            ufs,
            n,
        ),
    decreases m - n,
{
    if m > n {
        lemma_user_frames_stop(omit, fallbacks, process, binaries, ufs, n, m - 1);
    }
}

/// The stack of one sample: kernel frames, user frames, the thread and the
/// process. `Ok(None)` when a user frame is omitted.
pub open spec fn stack_of(
    omit: Option<OmitFilter>,
    kallsyms: RangeMap<KernelSymbol>,
    fallbacks: Seq<Option<AddressSpaceSymbol>>,
    process: Process,
    binaries: Map<BinaryId, Binary>,
    pid: u32,
    tid: u32,
    ufs: Seq<UserFrame>,
    kernel_backtrace: Seq<u64>,
) -> Result<Option<Seq<Frame>>, FrameError> {
    match user_frames(omit, fallbacks, process, binaries, ufs, ufs.len() as int) {
        Ok(Some(us)) => Ok(
            Some(
                kernel_backtrace.map_values(|a: u64| kernel_frame(kallsyms, a)) + us + seq![
                    thread_frame(pid, tid),
                    Frame::Process(pid),
                ],
            ),
        ),
        other => other,
    }
}

/// Builds the stack of one sample and counts it, unless a user frame is
/// omitted. `fallbacks[i]` is what the unwinder's own tables hold for user
/// frame `i`.
pub fn emit_frames(
    omit_regex: &Option<OmitFilter>,
    kallsyms: &RangeMap<KernelSymbol>,
    fallbacks: &Vec<Option<AddressSpaceSymbol>>,
    binary_by_id: &KeyedVec<BinaryId, Binary>,
    process: &Process,
    pid: u32,
    tid: u32,
    user_backtrace: &Vec<UserFrame>,
    kernel_backtrace: &Vec<u64>,
    stacks: &mut Histogram,
) -> (r: Result<(), FrameError>)
    requires
        kallsyms.wf(),
        process.wf(),
        binaries_wf(*binary_by_id),
        old(stacks).wf(),
    ensures
        final(stacks).wf(),
        match stack_of(
            *omit_regex,
            *kallsyms,
            fallbacks@,
            *process,
            binary_by_id@,
            pid,
            tid,
            user_backtrace@,
            kernel_backtrace@,
        ) {
            Ok(Some(s)) => r is Ok && final(stacks)@ == count_stack(old(stacks)@, s),
            Ok(None) => r is Ok && final(stacks)@ == old(stacks)@,
            Err(e) => r == Err::<(), FrameError>(e) && final(stacks)@ == old(stacks)@,
        },
{
    let ghost kseq = kernel_backtrace@.map_values(|a: u64| kernel_frame(*kallsyms, a));
    let mut frames: Vec<Frame> = Vec::new();
    let mut i: usize = 0;
    while i < kernel_backtrace.len()
        invariant
            kallsyms.wf(),
            i <= kernel_backtrace@.len(),
            kseq == kernel_backtrace@.map_values(|a: u64| kernel_frame(*kallsyms, a)),
            frames@ == kseq.subrange(0, i as int),
        decreases kernel_backtrace@.len() - i,
    {
        let addr = kernel_backtrace[i];
        let f = match kallsyms.get_index(addr) {
            Some(index) => Frame::KernelSymbol(index),
            None => Frame::Kernel(addr),
        };
        frames.push(f);
        proof {
            assert(kseq.subrange(0, i as int + 1) =~= kseq.subrange(0, i as int).push(f));
        }
        i = i + 1;
    }
    assert(kseq.subrange(0, kseq.len() as int) =~= kseq);
    let ghost mut useq: Seq<Frame> = Seq::empty();
    let mut j: usize = 0;
    while j < user_backtrace.len()
        invariant
            process.wf(),
            binaries_wf(*binary_by_id),
            j <= user_backtrace@.len(),
            user_frames(*omit_regex, fallbacks@, *process, binary_by_id@, user_backtrace@, j as int) == Ok::<
                Option<Seq<Frame>>,
                FrameError,
            >(Some(useq)),
            frames@ == kseq + useq,
            stacks@ == old(stacks)@,
            stacks.wf(),
        decreases user_backtrace@.len() - j,
    {
        let none: Option<AddressSpaceSymbol> = None;
        let fallback = if j < fallbacks.len() {
            &fallbacks[j]
        } else {
            &none
        };
        match decode_user_frame(omit_regex, fallback, process, binary_by_id, &user_backtrace[j]) {
            Ok(Some(f)) => {
                frames.push(f);
                proof {
                    useq = useq.push(f);
                }
            },
            Ok(None) => {
                proof {
                    lemma_user_frames_stop(*omit_regex, fallbacks@, *process, binary_by_id@, user_backtrace@, j + 1, user_backtrace@.len() as int);
                }
                return Ok(());
            },
            Err(e) => {
                proof {
                    lemma_user_frames_stop(*omit_regex, fallbacks@, *process, binary_by_id@, user_backtrace@, j + 1, user_backtrace@.len() as int);
                }
                return Err(e);
            },
        }
        j = j + 1;
    }
    assert(user_backtrace@.len() == j);
    if pid == tid {
        frames.push(Frame::MainThread);
    } else {
        frames.push(Frame::Thread(tid));
    }
    frames.push(Frame::Process(pid));
    proof {
        assert(frames@ =~= kseq + useq + seq![thread_frame(pid, tid), Frame::Process(pid)]);
    }
    stacks.add(frames);
    Ok(())
}

/// Every binary of the map is well formed.
pub open spec fn binary_map_wf(m: Map<BinaryId, Binary>) -> bool {
    forall|id: BinaryId| m.contains_key(id) ==> (#[trigger] m[id]).wf()
}

/// The binary that the region holding the frame's address maps.
pub open spec fn frame_binary(process: Process, uf: UserFrame) -> BinaryId {
    region_binary_id(process.memory_regions.value_at(effective_address(uf)))
}

/// The raw name of the symbol that a frame names, if it names one.
pub open spec fn symbol_name_of(
    binaries: Map<BinaryId, Binary>,
    fallback: Option<AddressSpaceSymbol>,
    f: Frame,
) -> Option<Seq<u8>> {
    match f {
        Frame::UserSymbol(id, i, Table::Debug) => match binaries[id].debug_symbols {
            Some(s) => Some(s@[i as int].2),
            None => None,
        },
        Frame::UserSymbol(id, i, Table::Original) => match binaries[id].symbols {
            Some(s) => Some(s@[i as int].2),
            None => None,
        },
        Frame::UserSymbol(_, _, Table::AddressSpace) => match fallback {
            Some(s) => Some(s.name@),
            None => None,
        },
        _ => None,
    }
}

/// A frame resolved from the debug symbols or from the binary's own symbols
/// names a symbol whose range holds the frame's address minus the base
/// address of its binary.
pub proof fn lemma_symbol_frame_contains_address(
    omit: Option<OmitFilter>,
    fallback: Option<AddressSpaceSymbol>,
    process: Process,
    binaries: Map<BinaryId, Binary>,
    uf: UserFrame,
    id: BinaryId,
    i: usize,
    t: Table,
)
    requires
        process.wf(),
        binary_map_wf(binaries),
        classify(omit, fallback, process, binaries, uf) == Ok::<Option<Frame>, FrameError>(
            Some(Frame::UserSymbol(id, i, t)),
        ),
        t != Table::AddressSpace,
    ensures
        process.base_address_for_binary@.contains_key(id),
        effective_address(uf) >= process.base_address_for_binary@[id],
        t == Table::Debug ==> (binaries[id].debug_symbols matches Some(s) && i < s@.len() && sym_contains(
            s@[i as int],
            effective_address(uf) - process.base_address_for_binary@[id],
        )),
        t == Table::Original ==> (binaries[id].symbols matches Some(s) && i < s@.len() && sym_contains(
            s@[i as int],
            effective_address(uf) - process.base_address_for_binary@[id],
        )),
{
    let a = effective_address(uf);
    let b = binaries[id];
    let base = process.base_address_for_binary@[id];
    assert(b.wf());
    if source_hit(b.debug_symbols, a, base) {
        let s = b.debug_symbols.unwrap();
        s.lemma_pick_exists(a - base);
        s.lemma_len_fits();
    } else {
        let s = b.symbols.unwrap();
        s.lemma_pick_exists(a - base);
        s.lemma_len_fits();
    }
}

/// Source precedence: where both the debug symbols and the binary's own
/// symbols resolve a frame, any frame emitted for it comes from the debug
/// symbols; where neither resolves it, any frame emitted comes from the
/// unwinder's tables when they hold a symbol for it.
pub proof fn lemma_source_precedence(
    omit: Option<OmitFilter>,
    fallback: Option<AddressSpaceSymbol>,
    process: Process,
    binaries: Map<BinaryId, Binary>,
    uf: UserFrame,
)
    requires
        process.memory_regions.covers(effective_address(uf)),
        binaries.contains_key(frame_binary(process, uf)),
        process.base_address_for_binary@.contains_key(frame_binary(process, uf)),
    ensures
        ({
            let id = frame_binary(process, uf);
            let b = binaries[id];
            let a = effective_address(uf);
            let base = process.base_address_for_binary@[id];
            &&& (source_hit(b.debug_symbols, a, base) && source_hit(b.symbols, a, base)) ==> (classify(
                omit,
                fallback,
                process,
                binaries,
                uf,
            ) matches Ok(r) && (r matches Some(f) ==> f matches Frame::UserSymbol(_, _, Table::Debug)))
            &&& (!source_hit(b.debug_symbols, a, base) && !source_hit(b.symbols, a, base)
                && fallback is Some) ==> (classify(omit, fallback, process, binaries, uf) matches Ok(r) && (
            r matches Some(f) ==> f matches Frame::UserSymbol(_, _, Table::AddressSpace)))
        }),
{
}

/// The user frames of a classified prefix, one for each frame of the sample.
pub proof fn lemma_user_frames_each(
    omit: Option<OmitFilter>,
    fallbacks: Seq<Option<AddressSpaceSymbol>>,
    process: Process,
    binaries: Map<BinaryId, Binary>,
    ufs: Seq<UserFrame>,
    n: int,
    us: Seq<Frame>,
)
    requires
        0 <= n,
        user_frames(omit, fallbacks, process, binaries, ufs, n) == Ok::<Option<Seq<Frame>>, FrameError>(Some(us)),
    ensures
        us.len() == n,
        forall|k: int|
            0 <= k < n ==> classify(omit, fallback_at(fallbacks, k), process, binaries, #[trigger] ufs[k])
                == Ok::<Option<Frame>, FrameError>(Some(us[k])),
    decreases n,
{
    if n > 0 {
        let prev = user_frames(omit, fallbacks, process, binaries, ufs, n - 1);
        let p = prev->Ok_0->Some_0;
        lemma_user_frames_each(omit, fallbacks, process, binaries, ufs, n - 1, p);
        assert(us == p.push(us[n - 1]));
    }
}

/// A classified frame never names a symbol that the filter matches.
proof fn lemma_classified_not_omitted(
    omit: Option<OmitFilter>,
    fallback: Option<AddressSpaceSymbol>,
    process: Process,
    binaries: Map<BinaryId, Binary>,
    uf: UserFrame,
    f: Frame,
)
    requires
        binary_map_wf(binaries),
        classify(omit, fallback, process, binaries, uf) == Ok::<Option<Frame>, FrameError>(Some(f)),
    ensures
        symbol_name_of(binaries, fallback, f) matches Some(name) ==> !omitted(omit, name),
{
    let a = effective_address(uf);
    if process.memory_regions.covers(a) {
        let id = region_binary_id(process.memory_regions.value_at(a));
        if binaries.contains_key(id) {
            let b = binaries[id];
            let base = process.base_address_for_binary@[id];
            assert(b.wf());
            if source_hit(b.debug_symbols, a, base) {
                let s = b.debug_symbols.unwrap();
                s.lemma_pick_exists(a - base);
                s.lemma_len_fits();
            } else if source_hit(b.symbols, a, base) {
                let s = b.symbols.unwrap();
                s.lemma_pick_exists(a - base);
                s.lemma_len_fits();
            }
        }
    }
}

/// Omission drops whole stacks: in a stack that is emitted, no user frame
/// names a symbol that the filter matches.
pub proof fn lemma_emitted_stack_not_omitted(
    omit: Option<OmitFilter>,
    kallsyms: RangeMap<KernelSymbol>,
    fallbacks: Seq<Option<AddressSpaceSymbol>>,
    process: Process,
    binaries: Map<BinaryId, Binary>,
    pid: u32,
    tid: u32,
    ufs: Seq<UserFrame>,
    kernel_backtrace: Seq<u64>,
    s: Seq<Frame>,
)
    requires
        binary_map_wf(binaries),
        stack_of(omit, kallsyms, fallbacks, process, binaries, pid, tid, ufs, kernel_backtrace) == Ok::<
            Option<Seq<Frame>>,
            FrameError,
        >(Some(s)),
    ensures
        s.len() == kernel_backtrace.len() + ufs.len() + 2,
        forall|k: int|
            0 <= k < ufs.len() ==> (symbol_name_of(
                binaries,
                fallback_at(fallbacks, k),
                #[trigger] s[kernel_backtrace.len() + k],
            ) matches Some(name) ==> !omitted(omit, name)),
{
    let us = user_frames(omit, fallbacks, process, binaries, ufs, ufs.len() as int)->Ok_0->Some_0;
    lemma_user_frames_each(omit, fallbacks, process, binaries, ufs, ufs.len() as int, us);
    let ks = kernel_backtrace.map_values(|a: u64| kernel_frame(kallsyms, a));
    assert(s == ks + us + seq![thread_frame(pid, tid), Frame::Process(pid)]);
    assert forall|k: int| 0 <= k < ufs.len() implies (symbol_name_of(
        binaries,
        fallback_at(fallbacks, k),
        #[trigger] s[kernel_backtrace.len() + k],
    ) matches Some(name) ==> !omitted(omit, name)) by {
        assert(s[kernel_backtrace.len() + k] == us[k]);
        assert(classify(omit, fallback_at(fallbacks, k), process, binaries, ufs[k]) == Ok::<Option<Frame>, FrameError>(Some(us[k])));
        lemma_classified_not_omitted(omit, fallback_at(fallbacks, k), process, binaries, ufs[k], us[k]);
    }
}

/// A frame of the kernel.
pub open spec fn is_kernel_frame(f: Frame) -> bool {
    f is Kernel || f is KernelSymbol
}

/// Without a kernel backtrace, a sample's stack holds no kernel frame.
pub proof fn lemma_stack_without_kernel_frames(
    omit: Option<OmitFilter>,
    kallsyms: RangeMap<KernelSymbol>,
    fallbacks: Seq<Option<AddressSpaceSymbol>>,
    process: Process,
    binaries: Map<BinaryId, Binary>,
    pid: u32,
    tid: u32,
    ufs: Seq<UserFrame>,
    s: Seq<Frame>,
)
    requires
        stack_of(omit, kallsyms, fallbacks, process, binaries, pid, tid, ufs, Seq::empty()) == Ok::<
            Option<Seq<Frame>>,
            FrameError,
        >(Some(s)),
    ensures
        forall|i: int| 0 <= i < s.len() ==> !is_kernel_frame(#[trigger] s[i]),
{
    let us = user_frames(omit, fallbacks, process, binaries, ufs, ufs.len() as int)->Ok_0->Some_0;
    lemma_user_frames_each(omit, fallbacks, process, binaries, ufs, ufs.len() as int, us);
    let ks = Seq::<u64>::empty().map_values(|a: u64| kernel_frame(kallsyms, a));
    assert(ks =~= Seq::<Frame>::empty());
    assert(s == ks + us + seq![thread_frame(pid, tid), Frame::Process(pid)]);
    assert forall|i: int| 0 <= i < s.len() implies !is_kernel_frame(#[trigger] s[i]) by {
        if i < us.len() {
            assert(s[i] == us[i]);
            assert(classify(omit, fallback_at(fallbacks, i), process, binaries, ufs[i]) == Ok::<Option<Frame>, FrameError>(Some(us[i])));
        }
    }
}

} // verus!
