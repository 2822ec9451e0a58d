use vstd::prelude::*;

use crate::BinaryId;
use crate::chunks::{BinaryChunks, chunk_from, end_from};
use crate::filter::OmitFilter;
use crate::frame::{
    is_kernel_frame, lemma_stack_without_kernel_frames,
    AddressSpaceSymbol, Binary, Frame, FrameError, Process, Region, UserFrame, binaries_wf, emit_frames,
    stack_of, region_binary_id, effective_address,
};
use crate::histogram::{Histogram, count_stack, bump};
use crate::kallsyms::{KernelSymbol, parse as parse_kallsyms, kallsyms_table};
use crate::bytes::{copy_bytes, same_bytes};
use crate::keyed::KeyedVec;
use crate::range_map::RangeMap;
use crate::symbols::{Bitness, Endianness, SymbolTable, Symbols, SymbolView, table_symbols, entry_count};
use vstd::multiset::Multiset;

verus! {

/// Position just past the last `/` among the first `n` bytes, or 0.
pub open spec fn basename_start(s: Seq<u8>, n: int) -> int
    decreases n,
{
    if n <= 0 {
        0
    } else if s[n - 1] == 47u8 {
        n
    } else {
        basename_start(s, n - 1)
    }
}

/// What follows the last `/` of a path; the whole path when it has none.
pub open spec fn basename_of(s: Seq<u8>) -> Seq<u8> {
    s.subrange(basename_start(s, s.len() as int), s.len() as int)
}

proof fn lemma_basename_start_bounds(s: Seq<u8>, n: int)
    requires
        0 <= n <= s.len(),
    ensures
        0 <= basename_start(s, n) <= n,
    decreases n,
{
    if n > 0 && s[n - 1] != 47u8 {
        lemma_basename_start_bounds(s, n - 1);
    }
}

/// The file name part of a path.
pub fn get_basename(path: &[u8]) -> (r: Vec<u8>)
    ensures
        r@ == basename_of(path@),
{
    let mut start: usize = path.len();
    while start > 0 && path[start - 1] != 47u8
        invariant
            start <= path@.len(),
            basename_start(path@, path@.len() as int) == basename_start(path@, start as int),
        decreases start,
    {
        start = start - 1;
    }
    proof {
        lemma_basename_start_bounds(path@, start as int);
    }
    let mut out: Vec<u8> = Vec::new();
    let mut i: usize = start;
    while i < path.len()
        invariant
            start <= i <= path@.len(),
            out@ == path@.subrange(start as int, i as int),
        decreases path@.len() - i,
    {
        out.push(path[i]);
        proof {
            assert(path@.subrange(start as int, i as int + 1) =~= path@.subrange(start as int, i as int).push(
                path@[i as int],
            ));
        }
        i = i + 1;
    }
    out
}

/// The bytes before the first NUL.
pub open spec fn until_nul(s: Seq<u8>) -> Seq<u8> {
    crate::bytes::cstr_at(s, 0)
}

/// How many bytes of a raw sample's stack to unwind: all of them, or at
/// most the forced size.
pub fn stack_size_to_unwind(len: usize, force_stack_size: Option<u32>) -> (r: usize)
    ensures
        r <= len,
        force_stack_size matches Some(f) ==> r == (if (f as int) < len { f as int } else { len as int }),
        force_stack_size is None ==> r == len,
{
    match force_stack_size {
        Some(f) => if (f as usize) < len {
            f as usize
        } else {
            len
        },
        None => len,
    }
}

/// Settings of one collation.
#[derive(Clone, Copy, Debug)]
pub struct CollateOptions {
    /// Unwind only this many bytes of each raw sample's stack.
    pub force_stack_size: Option<u32>,
    /// Collate only the sample with this index.
    pub only_sample: Option<u64>,
    /// Drop kernel backtraces.
    pub without_kernel_callstacks: bool,
    /// Collate the samples of every recorded process; otherwise only those
    /// of the first one.
    pub all_processes: bool,
}

/// A recorded event, as the archive hands it over.
pub enum Packet {
    MachineInfo { architecture: Vec<u8>, bitness: Bitness, endianness: Endianness },
    ProcessInfo { pid: u32, executable: Vec<u8> },
    BinaryInfo { id: BinaryId, symbol_table_count: u16, path: Vec<u8>, debuglink: Vec<u8> },
    MemoryRegionMap { pid: u32, region: Region },
    MemoryRegionUnmap { pid: u32, start: u64, end: u64 },
    BinaryMap { pid: u32, id: BinaryId, base_address: u64 },
    BinaryUnmap { pid: u32, id: BinaryId },
    StringTable { binary_id: BinaryId, offset: u64, data: Vec<u8> },
    SymbolTable { binary_id: BinaryId, offset: u64, data: Vec<u8>, string_table_offset: u64, is_dynamic: bool },
    Sample { pid: u32, tid: u32, user_backtrace: Vec<UserFrame>, kernel_backtrace: Vec<u64> },
    ThreadName { tid: u32, name: Vec<u8> },
    FileBlob { path: Vec<u8>, data: Vec<u8> },
    Other,
}

/// Why a recording cannot be collated.
#[derive(Clone, Copy, Debug, PartialEq, Eq, Structural)]
pub enum CollateError {
    /// A mapped region overlaps one already mapped, or is empty.
    DuplicateMemoryRegion,
    /// An unmapped region was never mapped.
    UnknownRegionUnmapped,
    /// Table data came for a binary that was never announced.
    UnknownBinary(BinaryId),
    /// A symbol table names a string table that never came.
    MissingStringTable(BinaryId),
    /// Table data does not fit the 64-bit offset space.
    TableOutOfRange(BinaryId),
    /// A frame's binary has no recorded base address.
    MissingBaseAddress(BinaryId),
    /// A sample came before any process.
    NoProcess,
}

/// What to do for a raw sample before it can be counted.
pub enum RawSampleStep {
    /// The sample is not collated.
    Skip,
    /// Unwind it; first reload the unwinder with these regions where given.
    Unwind { reload: Option<Vec<Region>> },
}

/// What a collation produced.
pub struct Collation {
    pub kallsyms: RangeMap<KernelSymbol>,
    pub stacks: Histogram,
    pub process_index_by_pid: KeyedVec<u32, usize>,
    pub processes: Vec<Process>,
    pub thread_names: KeyedVec<u32, Vec<u8>>,
    pub binary_by_id: KeyedVec<BinaryId, Binary>,
}

impl Collation {
    /// Every process's region map is ordered and disjoint, every binary's
    /// symbols are ordered, and each process index points at a process.
    pub open spec fn wf(&self) -> bool {
        &&& self.kallsyms.wf()
        &&& self.stacks.wf()
        &&& self.process_index_by_pid.wf()
        &&& self.thread_names.wf()
        &&& binaries_wf(self.binary_by_id)
        &&& forall|i: int| 0 <= i < self.processes@.len() ==> (#[trigger] self.processes@[i]).wf()
        &&& forall|pid: u32|
            self.process_index_by_pid@.contains_key(pid) ==> #[trigger] self.process_index_by_pid@[pid]
                < self.processes@.len()
    }
}

/// Replays a recording, one packet at a time.
pub struct Collator {
    pub collation: Collation,
    pub options: CollateOptions,
    pub omit_regex: Option<OmitFilter>,
    pub debug_symbols: Vec<(Vec<u8>, Symbols)>,
    pub machine_architecture: Vec<u8>,
    pub machine_bitness: Bitness,
    pub machine_endianness: Endianness,
    pub sample_counter: u64,
}

/// The architectures the offline unwinder handles: `arm`, `amd64`, `mips64`.
pub open spec fn unwindable(arch: Seq<u8>) -> bool {
    arch == seq![97u8, 114u8, 109u8] || arch == seq![97u8, 109u8, 100u8, 54u8, 52u8] || arch == seq![
        109u8,
        105u8,
        112u8,
        115u8,
        54u8,
        52u8,
    ]
}

/// The collator's own settings and state stay, but for the sample counter.
pub open spec fn same_settings_but_counter(pre: Collator, post: Collator) -> bool {
    &&& post.options == pre.options
    &&& post.omit_regex == pre.omit_regex
    &&& post.debug_symbols == pre.debug_symbols
    &&& post.machine_architecture == pre.machine_architecture
    &&& post.machine_bitness == pre.machine_bitness
    &&& post.machine_endianness == pre.machine_endianness
}

/// The collator's own settings and state stay.
pub open spec fn same_settings(pre: Collator, post: Collator) -> bool {
    same_settings_but_counter(pre, post) && post.sample_counter == pre.sample_counter
}

/// Only process `i` may change.
pub open spec fn only_process_changes(pre: Collator, post: Collator, i: int) -> bool {
    &&& same_settings(pre, post)
    &&& post.collation.kallsyms == pre.collation.kallsyms
    &&& post.collation.stacks == pre.collation.stacks
    &&& post.collation.process_index_by_pid == pre.collation.process_index_by_pid
    &&& post.collation.thread_names == pre.collation.thread_names
    &&& post.collation.binary_by_id == pre.collation.binary_by_id
    &&& post.collation.processes@.len() == pre.collation.processes@.len()
    &&& forall|j: int|
        0 <= j < pre.collation.processes@.len() && j != i ==> #[trigger] post.collation.processes@[j]
            == pre.collation.processes@[j]
}

/// Only the binary `id` may change.
pub open spec fn only_binary_changes(pre: Collator, post: Collator, id: BinaryId) -> bool {
    &&& same_settings(pre, post)
    &&& post.collation.kallsyms == pre.collation.kallsyms
    &&& post.collation.stacks == pre.collation.stacks
    &&& post.collation.process_index_by_pid == pre.collation.process_index_by_pid
    &&& post.collation.processes == pre.collation.processes
    &&& post.collation.thread_names == pre.collation.thread_names
    &&& post.collation.binary_by_id@.remove(id) == pre.collation.binary_by_id@.remove(id)
    &&& post.collation.binary_by_id@.contains_key(id)
}

/// The index of the process with this pid, if it is known.
pub open spec fn process_at(c: Collator, pid: u32) -> Option<int> {
    if c.collation.process_index_by_pid@.contains_key(pid) {
        Some(c.collation.process_index_by_pid@[pid] as int)
    } else {
        None
    }
}

/// The process whose samples a sample of `pid` counts for: any known
/// process when all are collated, else the first process if it has this pid.
pub open spec fn sample_target(c: Collator, pid: u32) -> Option<int> {
    if c.options.all_processes {
        process_at(c, pid)
    } else if c.collation.processes@.len() > 0 && c.collation.processes@[0].pid == pid {
        Some(0)
    } else {
        None
    }
}

/// A sample other than the selected one.
pub open spec fn not_selected(c: Collator) -> bool {
    c.options.only_sample matches Some(k) && k != c.sample_counter
}

/// A sample comes before any process while only the first one is collated.
pub open spec fn lacks_process(c: Collator) -> bool {
    !c.options.all_processes && c.collation.processes@.len() == 0
}

/// The first debug entry from position `i` on with this name.
pub open spec fn debug_entry_from(entries: Seq<(Vec<u8>, Symbols)>, name: Seq<u8>, i: int) -> Option<int>
    decreases entries.len() - i,
{
    if i < 0 || i >= entries.len() {
        None
    } else if entries[i].0@ == name {
        Some(i)
    } else {
        debug_entry_from(entries, name, i + 1)
    }
}

pub open spec fn machine_info_effect(pre: Collator, post: Collator, arch: Seq<u8>, bitness: Bitness, endianness: Endianness) -> bool {
    &&& post.collation == pre.collation
    &&& post.options == pre.options
    &&& post.omit_regex == pre.omit_regex
    &&& post.debug_symbols == pre.debug_symbols
    &&& post.sample_counter == pre.sample_counter
    &&& post.machine_architecture@ == arch
    &&& post.machine_bitness == bitness
    &&& post.machine_endianness == endianness
}

pub open spec fn process_info_effect(pre: Collator, post: Collator, pid: u32, executable: Seq<u8>) -> bool {
    let n = pre.collation.processes@.len();
    &&& same_settings(pre, post)
    &&& post.collation.kallsyms == pre.collation.kallsyms
    &&& post.collation.stacks == pre.collation.stacks
    &&& post.collation.thread_names == pre.collation.thread_names
    &&& post.collation.binary_by_id == pre.collation.binary_by_id
    &&& post.collation.processes@.len() == n + 1
    &&& forall|j: int| 0 <= j < n ==> #[trigger] post.collation.processes@[j] == pre.collation.processes@[j]
    &&& post.collation.process_index_by_pid@ == pre.collation.process_index_by_pid@.insert(pid, n as usize)
    &&& ({
        let p = post.collation.processes@[n as int];
        &&& p.pid == pid
        &&& p.executable@ == basename_of(executable)
        &&& p.memory_regions@.len() == 0
        &&& p.base_address_for_binary@ == Map::<BinaryId, u64>::empty()
        &&& p.address_space_needs_reload
    })
}

pub open spec fn binary_info_effect(
    pre: Collator,
    post: Collator,
    id: BinaryId,
    symbol_table_count: u16,
    path: Seq<u8>,
    debuglink: Seq<u8>,
) -> bool {
    let link = until_nul(debuglink);
    let b = post.collation.binary_by_id@[id];
    let claimed = if link.len() > 0 { debug_entry_from(pre.debug_symbols@, link, 0) } else { None };
    &&& post.collation.kallsyms == pre.collation.kallsyms
    &&& post.collation.stacks == pre.collation.stacks
    &&& post.collation.process_index_by_pid == pre.collation.process_index_by_pid
    &&& post.collation.processes == pre.collation.processes
    &&& post.collation.thread_names == pre.collation.thread_names
    &&& post.options == pre.options
    &&& post.omit_regex == pre.omit_regex
    &&& post.machine_architecture == pre.machine_architecture
    &&& post.machine_bitness == pre.machine_bitness
    &&& post.machine_endianness == pre.machine_endianness
    &&& post.sample_counter == pre.sample_counter
    &&& post.collation.binary_by_id@.contains_key(id)
    &&& post.collation.binary_by_id@.remove(id) == pre.collation.binary_by_id@.remove(id)
    &&& b.path@ == path
    &&& b.basename@ == basename_of(path)
    &&& b.symbol_table_count == symbol_table_count
    &&& b.string_tables@.len() == 0
    &&& b.symbol_tables_chunks@.len() == 0
    &&& b.symbol_tables@.len() == 0
    &&& b.symbols is None
    &&& match claimed {
        Some(k) => b.debug_symbols == Some(pre.debug_symbols@[k].1) && post.debug_symbols@
            == pre.debug_symbols@.remove(k),
        None => b.debug_symbols is None && post.debug_symbols == pre.debug_symbols,
    }
}

pub open spec fn map_region_effect(pre: Collator, post: Collator, r: Result<(), CollateError>, pid: u32, region: Region) -> bool {
    match process_at(pre, pid) {
        None => r is Ok && post == pre,
        Some(i) => {
            let p = pre.collation.processes@[i];
            if region.start < region.end && p.memory_regions.fits(region.start, region.end) {
                let q = post.collation.processes@[i];
                &&& r is Ok
                &&& only_process_changes(pre, post, i)
                &&& q.pid == p.pid
                &&& q.executable == p.executable
                &&& q.base_address_for_binary == p.base_address_for_binary
                &&& q.address_space_needs_reload
                &&& exists|k: int|
                    0 <= k <= p.memory_regions@.len() && q.memory_regions@ == p.memory_regions@.insert(
                        k,
                        (region.start, region.end, region),
                    )
            } else {
                r == Err::<(), CollateError>(CollateError::DuplicateMemoryRegion) && post == pre
            }
        },
    }
}

pub open spec fn unmap_region_effect(pre: Collator, post: Collator, r: Result<(), CollateError>, pid: u32, start: u64, end: u64) -> bool {
    match process_at(pre, pid) {
        None => r is Ok && post == pre,
        Some(i) => {
            let p = pre.collation.processes@[i];
            if exists|k: int| 0 <= k < p.memory_regions@.len() && #[trigger] p.memory_regions@[k].0 == start
                && p.memory_regions@[k].1 == end {
                let q = post.collation.processes@[i];
                &&& r is Ok
                &&& only_process_changes(pre, post, i)
                &&& q.pid == p.pid
                &&& q.executable == p.executable
                &&& q.base_address_for_binary == p.base_address_for_binary
                &&& q.address_space_needs_reload
                &&& exists|k: int|
                    0 <= k < p.memory_regions@.len() && #[trigger] p.memory_regions@[k].0 == start
                        && p.memory_regions@[k].1 == end && q.memory_regions@ == p.memory_regions@.remove(k)
            } else {
                r == Err::<(), CollateError>(CollateError::UnknownRegionUnmapped) && post == pre
            }
        },
    }
}

/// A binary's base address is set (`Some`) or forgotten (`None`) in a
/// process; ignored for an unknown process or binary.
pub open spec fn base_address_effect(pre: Collator, post: Collator, pid: u32, id: BinaryId, base: Option<u64>) -> bool {
    match process_at(pre, pid) {
        Some(i) if pre.collation.binary_by_id@.contains_key(id) => {
            let p = pre.collation.processes@[i];
            let q = post.collation.processes@[i];
            &&& only_process_changes(pre, post, i)
            &&& q.pid == p.pid
            &&& q.executable == p.executable
            &&& q.memory_regions == p.memory_regions
            &&& q.address_space_needs_reload
            &&& q.base_address_for_binary@ == match base {
                Some(a) => p.base_address_for_binary@.insert(id, a),
                None => p.base_address_for_binary@.remove(id),
            }
        },
        _ => post == pre,
    }
}

pub open spec fn string_table_effect(pre: Collator, post: Collator, r: Result<(), CollateError>, id: BinaryId, offset: u64, data: Seq<u8>) -> bool {
    if !pre.collation.binary_by_id@.contains_key(id) {
        r == Err::<(), CollateError>(CollateError::UnknownBinary(id)) && post == pre
    } else if offset + data.len() > u64::MAX {
        r == Err::<(), CollateError>(CollateError::TableOutOfRange(id)) && post == pre
    } else {
        let b = pre.collation.binary_by_id@[id];
        let nb = post.collation.binary_by_id@[id];
        &&& r is Ok
        &&& only_binary_changes(pre, post, id)
        &&& nb.path == b.path
        &&& nb.basename == b.basename
        &&& nb.symbol_table_count == b.symbol_table_count
        &&& nb.symbol_tables_chunks == b.symbol_tables_chunks
        &&& nb.symbol_tables == b.symbol_tables
        &&& nb.symbols == b.symbols
        &&& nb.debug_symbols == b.debug_symbols
        &&& nb.string_tables@ == b.string_tables@.push((offset, (offset + data.len()) as u64, data))
    }
}

pub open spec fn symbol_table_effect(
    pre: Collator,
    post: Collator,
    r: Result<(), CollateError>,
    id: BinaryId,
    offset: u64,
    data: Seq<u8>,
    string_table_offset: u64,
    is_dynamic: bool,
) -> bool {
    if !pre.collation.binary_by_id@.contains_key(id) {
        r == Err::<(), CollateError>(CollateError::UnknownBinary(id)) && post == pre
    } else if offset + data.len() > u64::MAX {
        r == Err::<(), CollateError>(CollateError::TableOutOfRange(id)) && post == pre
    } else if end_from(pre.collation.binary_by_id@[id].string_tables@, string_table_offset, 0) is None {
        r == Err::<(), CollateError>(CollateError::MissingStringTable(id)) && post == pre
    } else {
        let b = pre.collation.binary_by_id@[id];
        let nb = post.collation.binary_by_id@[id];
        let end = (offset + data.len()) as u64;
        let tables = table_views(b.symbol_tables@).push(
            (
                offset,
                end,
                string_table_offset,
                end_from(b.string_tables@, string_table_offset, 0)->Some_0,
                is_dynamic,
            ),
        );
        let chunks = b.symbol_tables_chunks@.push((offset, end, data));
        &&& r is Ok
        &&& only_binary_changes(pre, post, id)
        &&& nb.path == b.path
        &&& nb.basename == b.basename
        &&& nb.symbol_table_count == b.symbol_table_count
        &&& nb.debug_symbols == b.debug_symbols
        &&& nb.string_tables == b.string_tables
        &&& if b.symbol_tables@.len() + 1 == b.symbol_table_count {
            &&& nb.symbols is Some
            &&& nb.symbols->Some_0@.to_multiset() == chunk_symbols(
                tables,
                chunks,
                b.string_tables@,
                pre.machine_bitness == Bitness::B64,
                pre.machine_endianness == Endianness::BigEndian,
                tables.len() as int,
            )
            &&& nb.symbol_tables@.len() == 0
            &&& nb.symbol_tables_chunks@.len() == 0
        } else {
            &&& nb.symbols == b.symbols
            &&& table_views(nb.symbol_tables@) == tables
            &&& nb.symbol_tables_chunks@ == chunks
        }
    }
}

pub open spec fn thread_name_effect(pre: Collator, post: Collator, tid: u32, name: Vec<u8>) -> bool {
    &&& same_settings(pre, post)
    &&& post.collation.kallsyms == pre.collation.kallsyms
    &&& post.collation.stacks == pre.collation.stacks
    &&& post.collation.process_index_by_pid == pre.collation.process_index_by_pid
    &&& post.collation.processes == pre.collation.processes
    &&& post.collation.binary_by_id == pre.collation.binary_by_id
    &&& post.collation.thread_names@ == if name@.len() == 0 {
        pre.collation.thread_names@.remove(tid)
    } else {
        pre.collation.thread_names@.insert(tid, name)
    }
}

pub open spec fn file_blob_effect(pre: Collator, post: Collator, path: Seq<u8>, data: Seq<u8>) -> bool {
    &&& same_settings(pre, post)
    &&& post.collation.stacks == pre.collation.stacks
    &&& post.collation.process_index_by_pid == pre.collation.process_index_by_pid
    &&& post.collation.processes == pre.collation.processes
    &&& post.collation.thread_names == pre.collation.thread_names
    &&& post.collation.binary_by_id == pre.collation.binary_by_id
    &&& if path == kallsyms_path() {
        kallsyms_table(data, post.collation.kallsyms)
    } else {
        post.collation.kallsyms == pre.collation.kallsyms
    }
}

/// What counting a sample does. A sample other than the selected one, or
/// of a process that is not collated, only moves the counter on; a sample
/// before any process, while only the first one is collated, is an error;
/// otherwise its stack, with the kernel part dropped where asked, is added
/// to the histogram unless omitted. Nothing else changes.
pub open spec fn sample_effect(
    pre: Collator,
    post: Collator,
    r: Result<(), CollateError>,
    pid: u32,
    tid: u32,
    ufs: Seq<UserFrame>,
    kbt: Seq<u64>,
    fallbacks: Seq<Option<AddressSpaceSymbol>>,
) -> bool {
    let c = pre.sample_counter;
    let kept = same_settings_but_counter(pre, post) && post.collation.kallsyms == pre.collation.kallsyms
        && post.collation.process_index_by_pid == pre.collation.process_index_by_pid
        && post.collation.processes == pre.collation.processes && post.collation.thread_names
        == pre.collation.thread_names && post.collation.binary_by_id == pre.collation.binary_by_id;
    if not_selected(pre) {
        r is Ok && post.sample_counter == bump(c) && post.collation == pre.collation && kept
    } else if lacks_process(pre) {
        r == Err::<(), CollateError>(CollateError::NoProcess) && post == pre
    } else {
        match sample_target(pre, pid) {
            None => r is Ok && post.sample_counter == bump(c) && post.collation == pre.collation && kept,
            Some(i) => {
                let kernel = if pre.options.without_kernel_callstacks { Seq::empty() } else { kbt };
                kept && match stack_of(
                    pre.omit_regex,
                    pre.collation.kallsyms,
                    fallbacks,
                    pre.collation.processes@[i],
                    pre.collation.binary_by_id@,
                    pid,
                    tid,
                    ufs,
                    kernel,
                ) {
                    Ok(Some(s)) => r is Ok && post.sample_counter == bump(c) && post.collation.stacks@ == count_stack(
                        pre.collation.stacks@,
                        s,
                    ),
                    Ok(None) => r is Ok && post.sample_counter == bump(c) && post.collation.stacks@
                        == pre.collation.stacks@,
                    Err(FrameError::MissingBaseAddress(id)) => r == Err::<(), CollateError>(
                        CollateError::MissingBaseAddress(id),
                    ) && post.collation.stacks@ == pre.collation.stacks@ && post.sample_counter == c,
                }
            },
        }
    }
}

/// What deciding on a raw sample does: like `sample_effect` for samples
/// that are not collated; a sample that is, when an unwinder for the
/// machine's architecture is ready, clears its process's reload flag and
/// asks for a reload with the process's regions if the flag was set.
pub open spec fn begin_raw_effect(pre: Collator, post: Collator, r: Result<RawSampleStep, CollateError>, pid: u32, unwinder_ready: bool) -> bool {
    let c = pre.sample_counter;
    let kept = same_settings_but_counter(pre, post) && post.collation == pre.collation;
    if not_selected(pre) {
        r matches Ok(RawSampleStep::Skip) && post.sample_counter == bump(c) && kept
    } else if lacks_process(pre) {
        r == Err::<RawSampleStep, CollateError>(CollateError::NoProcess) && post == pre
    } else {
        match sample_target(pre, pid) {
            None => r matches Ok(RawSampleStep::Skip) && post.sample_counter == bump(c) && kept,
            Some(i) => if !(unwindable(pre.machine_architecture@) && unwinder_ready) {
                r matches Ok(RawSampleStep::Skip) && post.sample_counter == bump(c) && kept
            } else {
                let p = pre.collation.processes@[i];
                let q = post.collation.processes@[i];
                &&& only_process_changes(pre, post, i)
                &&& q.pid == p.pid
                &&& q.executable == p.executable
                &&& q.memory_regions == p.memory_regions
                &&& q.base_address_for_binary == p.base_address_for_binary
                &&& !q.address_space_needs_reload
                &&& r matches Ok(RawSampleStep::Unwind { reload }) && (reload is Some <==> p.address_space_needs_reload)
                    && (reload matches Some(v) ==> same_regions(v@, p.memory_regions@))
            },
        }
    }
}

impl Collator {
    pub open spec fn wf(&self) -> bool {
        &&& self.collation.wf()
        &&& self.debug_wf()
    }

    pub open spec fn debug_wf(&self) -> bool {
        forall|i: int| 0 <= i < self.debug_symbols@.len() ==> (#[trigger] self.debug_symbols@[i]).1.wf()
    }

    /// The symbols of debug files not yet claimed by a binary, by file name.
    pub open spec fn debug_names(&self) -> Seq<Seq<u8>> {
        self.debug_symbols@.map_values(|e: (Vec<u8>, Symbols)| e.0@)
    }

    /// Starts a collation. `debug_symbols` holds the symbols read from
    /// external debug files, each under its file name.
    pub fn new(options: CollateOptions, omit_regex: Option<OmitFilter>, debug_symbols: Vec<(Vec<u8>, Symbols)>) -> (r: Self)
        requires
            forall|i: int| 0 <= i < debug_symbols@.len() ==> (#[trigger] debug_symbols@[i]).1.wf(),
        ensures
            r.wf(),
            r.options == options,
            r.omit_regex == omit_regex,
            r.debug_symbols == debug_symbols,
            r.sample_counter == 0,
            r.machine_architecture@.len() == 0,
            r.collation.processes@.len() == 0,
            r.collation.stacks@ == Map::<Seq<Frame>, u64>::empty(),
            r.collation.kallsyms@.len() == 0,
            r.collation.process_index_by_pid@ == Map::<u32, usize>::empty(),
            r.collation.thread_names@ == Map::<u32, Vec<u8>>::empty(),
            r.collation.binary_by_id@ == Map::<BinaryId, Binary>::empty(),
    {
        Collator {
            collation: Collation {
                kallsyms: RangeMap::new(),
                stacks: Histogram::new(),
                process_index_by_pid: KeyedVec::new(),
                processes: Vec::new(),
                thread_names: KeyedVec::new(),
                binary_by_id: KeyedVec::new(),
            },
            options,
            omit_regex,
            debug_symbols,
            machine_architecture: Vec::new(),
            machine_bitness: Bitness::B64,
            machine_endianness: Endianness::LittleEndian,
            sample_counter: 0,
        }
    }

    /// Whether raw samples can be unwound: the machine is one of those the
    /// offline unwinder handles.
    pub fn can_unwind(&self) -> (r: bool)
        ensures
            r == unwindable(self.machine_architecture@),
    {
        let arm: Vec<u8> = vec![97u8, 114u8, 109u8];
        let amd64: Vec<u8> = vec![97u8, 109u8, 100u8, 54u8, 52u8];
        let mips64: Vec<u8> = vec![109u8, 105u8, 112u8, 115u8, 54u8, 52u8];
        proof {
            assert(arm@ =~= seq![97u8, 114u8, 109u8]);
            assert(amd64@ =~= seq![97u8, 109u8, 100u8, 54u8, 52u8]);
            assert(mips64@ =~= seq![109u8, 105u8, 112u8, 115u8, 54u8, 52u8]);
        }
        let a = self.machine_architecture.as_slice();
        same_bytes(a, arm.as_slice()) || same_bytes(a, amd64.as_slice()) || same_bytes(a, mips64.as_slice())
    }

    /// Index of the process with this pid.
    fn process_index(&self, pid: u32) -> (r: Option<usize>)
        requires
            self.wf(),
        ensures
            r matches Some(i) ==> i < self.collation.processes@.len() && process_at(*self, pid) == Some(i as int),
            r is None ==> process_at(*self, pid) is None,
    {
        match self.collation.process_index_by_pid.get(&pid) {
            Some(i) => Some(*i),
            None => None,
        }
    }

    /// Records the machine's description.
    pub fn machine_info(&mut self, architecture: Vec<u8>, bitness: Bitness, endianness: Endianness)
        requires
            old(self).wf(),
        ensures
            final(self).wf(),
            machine_info_effect(*old(self), *final(self), architecture@, bitness, endianness),
    {
        self.machine_architecture = architecture;
        self.machine_bitness = bitness;
        self.machine_endianness = endianness;
    }

    /// Adds a process, named by the file name of its executable.
    pub fn process_info(&mut self, pid: u32, executable: &[u8])
        requires
            old(self).wf(),
        ensures
            final(self).wf(),
            process_info_effect(*old(self), *final(self), pid, executable@),
    {
        let process = Process {
            pid,
            executable: get_basename(executable),
            memory_regions: RangeMap::new(),
            base_address_for_binary: KeyedVec::new(),
            address_space_needs_reload: true,
        };
        let index = self.collation.processes.len();
        self.collation.processes.push(process);
        self.collation.process_index_by_pid.insert(pid, index);
    }

    /// Takes the symbols of the first debug file with this name, if any.
    fn take_debug_symbols(&mut self, name: &[u8]) -> (r: Option<Symbols>)
        requires
            old(self).wf(),
        ensures
            final(self).wf(),
            final(self).collation == old(self).collation,
            final(self).options == old(self).options,
            final(self).omit_regex == old(self).omit_regex,
            final(self).machine_architecture == old(self).machine_architecture,
            final(self).machine_bitness == old(self).machine_bitness,
            final(self).machine_endianness == old(self).machine_endianness,
            final(self).sample_counter == old(self).sample_counter,
            match debug_entry_from(old(self).debug_symbols@, name@, 0) {
                Some(k) => r == Some(old(self).debug_symbols@[k].1) && final(self).debug_symbols@ == old(
                    self,
                ).debug_symbols@.remove(k),
                None => r is None && final(self).debug_symbols == old(self).debug_symbols,
            },
            r matches Some(s) ==> s.wf(),
    {
        let mut i: usize = 0;
        while i < self.debug_symbols.len()
            invariant
                self == old(self),
                self.wf(),
                i <= self.debug_symbols@.len(),
                debug_entry_from(self.debug_symbols@, name@, 0) == debug_entry_from(self.debug_symbols@, name@, i as int),
            decreases self.debug_symbols@.len() - i,
        {
            if same_bytes(self.debug_symbols[i].0.as_slice(), name) {
                let ghost before = self.debug_symbols@;
                assert(forall|q: int| 0 <= q < before.len() ==> (#[trigger] before[q]).1.wf());
                let (_, s) = self.debug_symbols.remove(i);
                proof {
                    assert(self.debug_symbols@ == before.remove(i as int));
                    assert forall|q: int| 0 <= q < self.debug_symbols@.len() implies (#[trigger] self.debug_symbols@[q]).1.wf() by {
                        if q < i {
                            assert(self.debug_symbols@[q] == before[q]);
                        } else {
                            assert(self.debug_symbols@[q] == before[q + 1]);
                        }
                    }
                }
                return Some(s);
            }
            i = i + 1;
        }
        None
    }

    /// Registers a binary. When its debug link names a debug file whose
    /// symbols are at hand, those become the binary's debug symbols and
    /// leave the list, so no other binary gets them.
    pub fn binary_info(&mut self, id: BinaryId, symbol_table_count: u16, path: &[u8], debuglink: &[u8])
        requires
            old(self).wf(),
        ensures
            final(self).wf(),
            binary_info_effect(*old(self), *final(self), id, symbol_table_count, path@, debuglink@),
    {
        let link = crate::bytes::read_cstr(debuglink, 0);
        let debug = if link.len() > 0 {
            self.take_debug_symbols(link.as_slice())
        } else {
            None
        };
        let binary = Binary {
            path: copy_bytes(path),
            basename: get_basename(path),
            string_tables: BinaryChunks::new(),
            symbol_table_count,
            symbol_tables_chunks: BinaryChunks::new(),
            symbol_tables: Vec::new(),
            symbols: None,
            debug_symbols: debug,
        };
        self.collation.binary_by_id.insert(id, binary);
        proof {
            assert(self.collation.binary_by_id@.remove(id) =~= old(self).collation.binary_by_id@.remove(id));
            assert forall|k: BinaryId| self.collation.binary_by_id@.contains_key(k) implies (
            #[trigger] self.collation.binary_by_id@[k]).wf() by {
                if k != id {
                    assert(old(self).collation.binary_by_id@.contains_key(k));
                }
            }
        }
    }

    /// Maps a region into a process. Packets for unknown processes are ignored.
    pub fn map_region(&mut self, pid: u32, region: Region) -> (r: Result<(), CollateError>)
        requires
            old(self).wf(),
        ensures
            final(self).wf(),
            map_region_effect(*old(self), *final(self), r, pid, region),
    {
        let index = match self.process_index(pid) {
            Some(i) => i,
            None => return Ok(()),
        };
        let start = region.start;
        let end = region.end;
        if !self.collation.processes[index].memory_regions.can_push(start, end) {
            return Err(CollateError::DuplicateMemoryRegion);
        }
        let mut process = self.collation.processes.remove(index);
        let _ = process.memory_regions.push(start, end, region);
        process.address_space_needs_reload = true;
        self.collation.processes.insert(index, process);
        proof {
            assert forall|i: int| 0 <= i < self.collation.processes@.len() implies (
            #[trigger] self.collation.processes@[i]).wf() by {
                if i != index {
                    assert(self.collation.processes@[i] == old(self).collation.processes@[i]);
                }
            }
        }
        Ok(())
    }

    /// Unmaps exactly the region `[start, end)` of a process. Packets for
    /// unknown processes are ignored.
    pub fn unmap_region(&mut self, pid: u32, start: u64, end: u64) -> (r: Result<(), CollateError>)
        requires
            old(self).wf(),
        ensures
            final(self).wf(),
            unmap_region_effect(*old(self), *final(self), r, pid, start, end),
    {
        let index = match self.process_index(pid) {
            Some(i) => i,
            None => return Ok(()),
        };
        if !self.collation.processes[index].memory_regions.has_exact_range(start, end) {
            return Err(CollateError::UnknownRegionUnmapped);
        }
        let mut process = self.collation.processes.remove(index);
        let _ = process.memory_regions.remove_by_exact_range(start, end);
        process.address_space_needs_reload = true;
        self.collation.processes.insert(index, process);
        proof {
            assert forall|i: int| 0 <= i < self.collation.processes@.len() implies (
            #[trigger] self.collation.processes@[i]).wf() by {
                if i != index {
                    assert(self.collation.processes@[i] == old(self).collation.processes@[i]);
                }
            }
        }
        Ok(())
    }

    /// Records where a binary is mapped in a process. Ignored for an
    /// unknown process or binary.
    pub fn map_binary(&mut self, pid: u32, id: BinaryId, base_address: u64)
        requires
            old(self).wf(),
        ensures
            final(self).wf(),
            base_address_effect(*old(self), *final(self), pid, id, Some(base_address)),
    {
        let index = match self.process_index(pid) {
            Some(i) => i,
            None => return ,
        };
        if !self.collation.binary_by_id.contains_key(&id) {
            return ;
        }
        let mut process = self.collation.processes.remove(index);
        process.base_address_for_binary.insert(id, base_address);
        process.address_space_needs_reload = true;
        self.collation.processes.insert(index, process);
        proof {
            assert forall|i: int| 0 <= i < self.collation.processes@.len() implies (
            #[trigger] self.collation.processes@[i]).wf() by {
                if i != index {
                    assert(self.collation.processes@[i] == old(self).collation.processes@[i]);
                }
            }
        }
    }

    /// Forgets where a binary is mapped in a process. Ignored for an
    /// unknown process or binary.
    pub fn unmap_binary(&mut self, pid: u32, id: BinaryId)
        requires
            old(self).wf(),
        ensures
            final(self).wf(),
            base_address_effect(*old(self), *final(self), pid, id, None),
    {
        let index = match self.process_index(pid) {
            Some(i) => i,
            None => return ,
        };
        if !self.collation.binary_by_id.contains_key(&id) {
            return ;
        }
        let mut process = self.collation.processes.remove(index);
        let _ = process.base_address_for_binary.remove(&id);
        process.address_space_needs_reload = true;
        self.collation.processes.insert(index, process);
        proof {
            assert forall|i: int| 0 <= i < self.collation.processes@.len() implies (
            #[trigger] self.collation.processes@[i]).wf() by {
                if i != index {
                    assert(self.collation.processes@[i] == old(self).collation.processes@[i]);
                }
            }
        }
    }

    /// Stores a piece of a binary's string tables.
    pub fn string_table(&mut self, binary_id: BinaryId, offset: u64, data: Vec<u8>) -> (r: Result<(), CollateError>)
        requires
            old(self).wf(),
        ensures
            final(self).wf(),
            string_table_effect(*old(self), *final(self), r, binary_id, offset, data@),
    {
        if !self.collation.binary_by_id.contains_key(&binary_id) {
            return Err(CollateError::UnknownBinary(binary_id));
        }
        if data.len() as u64 > u64::MAX - offset {
            return Err(CollateError::TableOutOfRange(binary_id));
        }
        let mut binary = self.collation.binary_by_id.remove(&binary_id).unwrap();
        binary.string_tables.add(offset, data);
        self.collation.binary_by_id.insert(binary_id, binary);
        proof {
            assert(self.collation.binary_by_id@.remove(binary_id) =~= old(self).collation.binary_by_id@.remove(
                binary_id,
            ));
            assert forall|k: BinaryId| self.collation.binary_by_id@.contains_key(k) implies (
            #[trigger] self.collation.binary_by_id@[k]).wf() by {
                if k != binary_id {
                    assert(old(self).collation.binary_by_id@.contains_key(k));
                }
            }
        }
        Ok(())
    }

    /// Stores a piece of a binary's symbol tables, with the string table
    /// (by its offset) that names its symbols. When the binary's last
    /// expected table has come, its symbols are indexed and the raw symbol
    /// tables dropped.
    pub fn symbol_table(
        &mut self,
        binary_id: BinaryId,
        offset: u64,
        data: Vec<u8>,
        string_table_offset: u64,
        is_dynamic: bool,
    ) -> (r: Result<(), CollateError>)
        requires
            old(self).wf(),
        ensures
            final(self).wf(),
            symbol_table_effect(*old(self), *final(self), r, binary_id, offset, data@, string_table_offset, is_dynamic),
    {
        let strtab_range = match self.collation.binary_by_id.get(&binary_id) {
            None => return Err(CollateError::UnknownBinary(binary_id)),
            Some(b) => {
                if data.len() as u64 > u64::MAX - offset {
                    return Err(CollateError::TableOutOfRange(binary_id));
                }
                match b.string_tables.range_by_offset(string_table_offset) {
                    None => return Err(CollateError::MissingStringTable(binary_id)),
                    Some(range) => range,
                }
            },
        };
        let mut binary = self.collation.binary_by_id.remove(&binary_id).unwrap();
        let end = offset + data.len() as u64;
        binary.symbol_tables_chunks.add(offset, data);
        let ghost before = binary.symbol_tables@;
        binary.symbol_tables.push(SymbolTable { range: offset..end, strtab_range, is_dynamic });
        proof {
            assert(table_views(binary.symbol_tables@) =~= table_views(before).push(
                (offset, end, strtab_range.start, strtab_range.end, is_dynamic),
            ));
        }
        if binary.symbol_tables.len() == binary.symbol_table_count as usize {
            let symbols = build_symbols(
                &binary.symbol_tables,
                &binary.symbol_tables_chunks,
                &binary.string_tables,
                self.machine_bitness,
                self.machine_endianness,
            );
            binary.symbols = Some(symbols);
            binary.symbol_tables = Vec::new();
            binary.symbol_tables_chunks.clear();
        }
        self.collation.binary_by_id.insert(binary_id, binary);
        proof {
            assert(self.collation.binary_by_id@.remove(binary_id) =~= old(self).collation.binary_by_id@.remove(
                binary_id,
            ));
            assert forall|k: BinaryId| self.collation.binary_by_id@.contains_key(k) implies (
            #[trigger] self.collation.binary_by_id@[k]).wf() by {
                if k != binary_id {
                    assert(old(self).collation.binary_by_id@.contains_key(k));
                }
            }
        }
        Ok(())
    }

    /// Counts one already unwound sample.
    pub fn sample(
        &mut self,
        pid: u32,
        tid: u32,
        user_backtrace: &Vec<UserFrame>,
        kernel_backtrace: &Vec<u64>,
    ) -> (r: Result<(), CollateError>)
        requires
            old(self).wf(),
        ensures
            final(self).wf(),
            sample_effect(*old(self), *final(self), r, pid, tid, user_backtrace@, kernel_backtrace@, Seq::empty()),
    {
        let no_fallbacks: Vec<Option<AddressSpaceSymbol>> = Vec::new();
        self.count_sample(pid, tid, user_backtrace, kernel_backtrace, &no_fallbacks)
    }

    /// Counts one sample whose user frames come from the unwinder, with what
    /// the unwinder's own tables hold for each frame.
    pub fn unwound_sample(
        &mut self,
        pid: u32,
        tid: u32,
        user_backtrace: &Vec<UserFrame>,
        kernel_backtrace: &Vec<u64>,
        fallbacks: &Vec<Option<AddressSpaceSymbol>>,
    ) -> (r: Result<(), CollateError>)
        requires
            old(self).wf(),
        ensures
            final(self).wf(),
            sample_effect(*old(self), *final(self), r, pid, tid, user_backtrace@, kernel_backtrace@, fallbacks@),
    {
        self.count_sample(pid, tid, user_backtrace, kernel_backtrace, fallbacks)
    }

    /// The process that a sample of `pid` counts for.
    fn target(&self, pid: u32) -> (r: Option<usize>)
        requires
            self.wf(),
        ensures
            r matches Some(i) ==> i < self.collation.processes@.len() && sample_target(*self, pid) == Some(i as int),
            r is None ==> sample_target(*self, pid) is None,
    {
        if self.options.all_processes {
            self.process_index(pid)
        } else if self.collation.processes.len() > 0 && self.collation.processes[0].pid == pid {
            Some(0)
        } else {
            None
        }
    }

    fn count_sample(
        &mut self,
        pid: u32,
        tid: u32,
        user_backtrace: &Vec<UserFrame>,
        kernel_backtrace: &Vec<u64>,
        fallbacks: &Vec<Option<AddressSpaceSymbol>>,
    ) -> (r: Result<(), CollateError>)
        requires
            old(self).wf(),
        ensures
            final(self).wf(),
            sample_effect(*old(self), *final(self), r, pid, tid, user_backtrace@, kernel_backtrace@, fallbacks@),
    {
        if let Some(only) = self.options.only_sample {
            if only != self.sample_counter {
                self.sample_counter = bump_counter(self.sample_counter);
                return Ok(());
            }
        }
        if !self.options.all_processes && self.collation.processes.len() == 0 {
            return Err(CollateError::NoProcess);
        }
        let index = match self.target(pid) {
            Some(i) => i,
            None => {
                self.sample_counter = bump_counter(self.sample_counter);
                return Ok(());
            },
        };
        let empty: Vec<u64> = Vec::new();
        let kernel = if self.options.without_kernel_callstacks {
            &empty
        } else {
            kernel_backtrace
        };
        let emitted = emit_frames(
            &self.omit_regex,
            &self.collation.kallsyms,
            fallbacks,
            &self.collation.binary_by_id,
            &self.collation.processes[index],
            pid,
            tid,
            user_backtrace,
            kernel,
            &mut self.collation.stacks,
        );
        match emitted {
            Ok(()) => {
                self.sample_counter = bump_counter(self.sample_counter);
                Ok(())
            },
            Err(FrameError::MissingBaseAddress(id)) => Err(CollateError::MissingBaseAddress(id)),
        }
    }

    /// Decides what to do for a raw sample of `pid`; `unwinder_ready` says
    /// whether the caller holds an unwinder for the machine. When the
    /// process's address space changed since the last unwinding, the step
    /// asks for a reload with its current regions.
    pub fn begin_raw_sample(&mut self, pid: u32, unwinder_ready: bool) -> (r: Result<RawSampleStep, CollateError>)
        requires
            old(self).wf(),
        ensures
            final(self).wf(),
            begin_raw_effect(*old(self), *final(self), r, pid, unwinder_ready),
    {
        if let Some(only) = self.options.only_sample {
            if only != self.sample_counter {
                self.sample_counter = bump_counter(self.sample_counter);
                return Ok(RawSampleStep::Skip);
            }
        }
        if !self.options.all_processes && self.collation.processes.len() == 0 {
            return Err(CollateError::NoProcess);
        }
        let index = match self.target(pid) {
            Some(i) => i,
            None => {
                self.sample_counter = bump_counter(self.sample_counter);
                return Ok(RawSampleStep::Skip);
            },
        };
        if !(self.can_unwind() && unwinder_ready) {
            self.sample_counter = bump_counter(self.sample_counter);
            return Ok(RawSampleStep::Skip);
        }
        if !self.collation.processes[index].address_space_needs_reload {
            return Ok(RawSampleStep::Unwind { reload: None });
        }
        let mut process = self.collation.processes.remove(index);
        let regions = region_list(&process.memory_regions);
        process.address_space_needs_reload = false;
        self.collation.processes.insert(index, process);
        proof {
            assert forall|i: int| 0 <= i < self.collation.processes@.len() implies (
            #[trigger] self.collation.processes@[i]).wf() by {
                if i != index {
                    assert(self.collation.processes@[i] == old(self).collation.processes@[i]);
                }
            }
        }
        Ok(RawSampleStep::Unwind { reload: Some(regions) })
    }

    /// The binary that a user frame of the process `pid` falls in, where its
    /// region maps a known binary: what the unwinder's own tables are asked about.
    pub fn frame_binary(&self, pid: u32, frame: &UserFrame) -> (r: Option<BinaryId>)
        requires
            self.wf(),
        ensures
            sample_target(*self, pid) is None ==> r is None,
            sample_target(*self, pid) matches Some(i) ==> {
                let p = self.collation.processes@[i];
                let a = effective_address(*frame);
                &&& (r is Some <==> (p.memory_regions.covers(a) && self.collation.binary_by_id@.contains_key(
                    region_binary_id(p.memory_regions.value_at(a)),
                )))
                &&& (r matches Some(id) ==> id == region_binary_id(p.memory_regions.value_at(a)))
            },
    {
        let index = match self.target(pid) {
            Some(i) => i,
            None => return None,
        };
        let address = frame.lookup_address();
        match self.collation.processes[index].memory_regions.get_value(address) {
            Some(region) => {
                let id = BinaryId { inode: region.inode, dev_major: region.major, dev_minor: region.minor };
                if self.collation.binary_by_id.contains_key(&id) {
                    Some(id)
                } else {
                    None
                }
            },
            None => None,
        }
    }

    /// Takes in a file captured with the recording: `/proc/kallsyms`
    /// becomes the kernel symbol table; other files are ignored.
    pub fn file_blob(&mut self, path: &[u8], data: &[u8])
        requires
            old(self).wf(),
        ensures
            final(self).wf(),
            file_blob_effect(*old(self), *final(self), path@, data@),
    {
        if is_kallsyms_path(path) {
            self.collation.kallsyms = parse_kallsyms(data);
        }
    }

    /// Sets or, for an empty name, forgets the name of a thread.
    pub fn thread_name(&mut self, tid: u32, name: Vec<u8>)
        requires
            old(self).wf(),
        ensures
            final(self).wf(),
            thread_name_effect(*old(self), *final(self), tid, name),
    {
        if name.len() == 0 {
            let _ = self.collation.thread_names.remove(&tid);
        } else {
            self.collation.thread_names.insert(tid, name);
        }
    }

    /// Applies one packet, as the handler for its kind does.
    pub fn handle_packet(&mut self, packet: Packet) -> (r: Result<(), CollateError>)
        requires
            old(self).wf(),
        ensures
            final(self).wf(),
            match packet {
                Packet::MachineInfo { architecture, bitness, endianness } => r is Ok && machine_info_effect(
                    *old(self),
                    *final(self),
                    architecture@,
                    bitness,
                    endianness,
                ),
                Packet::ProcessInfo { pid, executable } => r is Ok && process_info_effect(
                    *old(self),
                    *final(self),
                    pid,
                    executable@,
                ),
                Packet::BinaryInfo { id, symbol_table_count, path, debuglink } => r is Ok && binary_info_effect(
                    *old(self),
                    *final(self),
                    id,
                    symbol_table_count,
                    path@,
                    debuglink@,
                ),
                Packet::MemoryRegionMap { pid, region } => map_region_effect(*old(self), *final(self), r, pid, region),
                Packet::MemoryRegionUnmap { pid, start, end } => unmap_region_effect(
                    *old(self),
                    *final(self),
                    r,
                    pid,
                    start,
                    end,
                ),
                Packet::BinaryMap { pid, id, base_address } => r is Ok && base_address_effect(
                    *old(self),
                    *final(self),
                    pid,
                    id,
                    Some(base_address),
                ),
                Packet::BinaryUnmap { pid, id } => r is Ok && base_address_effect(
                    *old(self),
                    *final(self),
                    pid,
                    id,
                    None,
                ),
                Packet::StringTable { binary_id, offset, data } => string_table_effect(
                    *old(self),
                    *final(self),
                    r,
                    binary_id,
                    offset,
                    data@,
                ),
                Packet::SymbolTable { binary_id, offset, data, string_table_offset, is_dynamic } => symbol_table_effect(
                    *old(self),
                    *final(self),
                    r,
                    binary_id,
                    offset,
                    data@,
                    string_table_offset,
                    is_dynamic,
                ),
                Packet::Sample { pid, tid, user_backtrace, kernel_backtrace } => sample_effect(
                    *old(self),
                    *final(self),
                    r,
                    pid,
                    tid,
                    user_backtrace@,
                    kernel_backtrace@,
                    Seq::empty(),
                ),
                Packet::ThreadName { tid, name } => r is Ok && thread_name_effect(*old(self), *final(self), tid, name),
                Packet::FileBlob { path, data } => r is Ok && file_blob_effect(*old(self), *final(self), path@, data@),
                Packet::Other => r is Ok && *final(self) == *old(self),
            },
    {
        match packet {
            Packet::MachineInfo { architecture, bitness, endianness } => {
                self.machine_info(architecture, bitness, endianness);
                Ok(())
            },
            Packet::ProcessInfo { pid, executable } => {
                self.process_info(pid, executable.as_slice());
                Ok(())
            },
            Packet::BinaryInfo { id, symbol_table_count, path, debuglink } => {
                self.binary_info(id, symbol_table_count, path.as_slice(), debuglink.as_slice());
                Ok(())
            },
            Packet::MemoryRegionMap { pid, region } => self.map_region(pid, region),
            Packet::MemoryRegionUnmap { pid, start, end } => self.unmap_region(pid, start, end),
            Packet::BinaryMap { pid, id, base_address } => {
                self.map_binary(pid, id, base_address);
                Ok(())
            },
            Packet::BinaryUnmap { pid, id } => {
                self.unmap_binary(pid, id);
                Ok(())
            },
            Packet::StringTable { binary_id, offset, data } => self.string_table(binary_id, offset, data),
            Packet::SymbolTable { binary_id, offset, data, string_table_offset, is_dynamic } => self.symbol_table(
                binary_id,
                offset,
                data,
                string_table_offset,
                is_dynamic,
            ),
            Packet::Sample { pid, tid, user_backtrace, kernel_backtrace } => self.sample(
                pid,
                tid,
                &user_backtrace,
                &kernel_backtrace,
            ),
            Packet::ThreadName { tid, name } => {
                self.thread_name(tid, name);
                Ok(())
            },
            Packet::FileBlob { path, data } => {
                self.file_blob(path.as_slice(), data.as_slice());
                Ok(())
            },
            Packet::Other => Ok(()),
        }
    }
}

fn bump_counter(c: u64) -> (r: u64)
    ensures
        r == bump(c),
{
    if c < u64::MAX {
        c + 1
    } else {
        c
    }
}

/// The regions hold, in order, the values of the region map.
pub open spec fn same_regions(v: Seq<Region>, m: Seq<(u64, u64, Region)>) -> bool {
    &&& v.len() == m.len()
    &&& forall|i: int| 0 <= i < v.len() ==> same_region(#[trigger] v[i], m[i].2)
}

pub open spec fn same_region(a: Region, b: Region) -> bool {
    &&& a.start == b.start
    &&& a.end == b.end
    &&& a.is_read == b.is_read
    &&& a.is_write == b.is_write
    &&& a.is_executable == b.is_executable
    &&& a.is_shared == b.is_shared
    &&& a.file_offset == b.file_offset
    &&& a.inode == b.inode
    &&& a.major == b.major
    &&& a.minor == b.minor
    &&& a.name@ == b.name@
}

fn copy_region(r: &Region) -> (c: Region)
    ensures
        same_region(c, *r),
{
    Region {
        start: r.start,
        end: r.end,
        is_read: r.is_read,
        is_write: r.is_write,
        is_executable: r.is_executable,
        is_shared: r.is_shared,
        file_offset: r.file_offset,
        inode: r.inode,
        major: r.major,
        minor: r.minor,
        name: copy_bytes(r.name.as_slice()),
    }
}

/// Copies of the regions of a map, in address order.
fn region_list(m: &RangeMap<Region>) -> (r: Vec<Region>)
    ensures
        same_regions(r@, m@),
{
    let mut out: Vec<Region> = Vec::new();
    let mut i: usize = 0;
    let n = m.len();
    while i < n
        invariant
            n == m@.len(),
            i <= n,
            out@.len() == i,
            forall|q: int| 0 <= q < i ==> same_region(#[trigger] out@[q], m@[q].2),
        decreases n - i,
    {
        let region = m.get_value_by_index(i).unwrap();
        out.push(copy_region(region));
        i = i + 1;
    }
    out
}

/// The path under which the kernel lists its symbols.
pub open spec fn kallsyms_path() -> Seq<u8> {
    seq![47u8, 112u8, 114u8, 111u8, 99u8, 47u8, 107u8, 97u8, 108u8, 108u8, 115u8, 121u8, 109u8, 115u8]
}

fn is_kallsyms_path(p: &[u8]) -> (r: bool)
    ensures
        r == (p@ == kallsyms_path()),
{
    let expected: Vec<u8> = vec![47u8, 112u8, 114u8, 111u8, 99u8, 47u8, 107u8, 97u8, 108u8, 108u8, 115u8, 121u8, 109u8, 115u8];
    assert(expected@ =~= kallsyms_path());
    same_bytes(p, expected.as_slice())
}

/// Each symbol table as (start, end, strings start, strings end, dynamic).
pub open spec fn table_views(ts: Seq<SymbolTable>) -> Seq<(u64, u64, u64, u64, bool)> {
    ts.map_values(|t: SymbolTable| (t.range.start, t.range.end, t.strtab_range.start, t.strtab_range.end, t.is_dynamic))
}

/// The symbols of the first `n` tables whose bytes and string table are
/// among the chunks received.
pub open spec fn chunk_symbols(
    tables: Seq<(u64, u64, u64, u64, bool)>,
    chunks: Seq<(u64, u64, Seq<u8>)>,
    strtabs: Seq<(u64, u64, Seq<u8>)>,
    is_64: bool,
    big: bool,
    n: int,
) -> Multiset<SymbolView>
    decreases n,
{
    if n <= 0 {
        Multiset::empty()
    } else {
        let prev = chunk_symbols(tables, chunks, strtabs, is_64, big, n - 1);
        let t = tables[n - 1];
        match (chunk_from(chunks, t.0, t.1, 0), chunk_from(strtabs, t.2, t.3, 0)) {
            (Some(symtab), Some(strtab)) => prev.add(
                table_symbols(symtab, strtab, entry_count(symtab, is_64), is_64, big, t.4, None).to_multiset(),
            ),
            _ => prev,
        }
    }
}

/// Indexes the symbols of every table whose bytes and string table are at hand.
fn build_symbols(
    tables: &Vec<SymbolTable>,
    chunks: &BinaryChunks,
    strtabs: &BinaryChunks,
    bitness: Bitness,
    endianness: Endianness,
) -> (r: Symbols)
    ensures
        r.wf(),
        r@.to_multiset() == chunk_symbols(
            table_views(tables@),
            chunks@,
            strtabs@,
            bitness == Bitness::B64,
            endianness == Endianness::BigEndian,
            tables@.len() as int,
        ),
{
    let mut symbols = Symbols::new();
    let none: Option<Vec<(u64, u64)>> = None;
    proof {
        vstd::seq_lib::to_multiset_len(symbols@);
        vstd::multiset::lemma_multiset_empty_len(symbols@.to_multiset());
    }
    let mut i: usize = 0;
    while i < tables.len()
        invariant
            symbols.wf(),
            i <= tables@.len(),
            none is None,
            symbols@.to_multiset() == chunk_symbols(
                table_views(tables@),
                chunks@,
                strtabs@,
                bitness == Bitness::B64,
                endianness == Endianness::BigEndian,
                i as int,
            ),
        decreases tables@.len() - i,
    {
        let t = &tables[i];
        proof {
            assert(table_views(tables@)[i as int] == (t.range.start, t.range.end, t.strtab_range.start, t.strtab_range.end, t.is_dynamic));
        }
        match (chunks.get(t.range.start, t.range.end), strtabs.get(t.strtab_range.start, t.strtab_range.end)) {
            (Some(symtab), Some(strtab)) => {
                symbols.add_table(symtab.as_slice(), strtab.as_slice(), t.is_dynamic, bitness, endianness, &none);
            },
            _ => {},
        }
        i = i + 1;
    }
    symbols
}

/// Replay keeps the regions of each process apart: in a well-formed
/// collator, which every packet handler preserves, two regions of one
/// process never share an address, and the earlier one ends before the
/// later one starts.
pub proof fn lemma_regions_disjoint(c: Collator, i: int, a: int, b: int)
    requires
        c.wf(),
        0 <= i < c.collation.processes@.len(),
        0 <= a < b < c.collation.processes@[i].memory_regions@.len(),
    ensures
        ({
            let m = c.collation.processes@[i].memory_regions@;
            &&& m[a].1 <= m[b].0
            &&& crate::range_map::ranges_disjoint(m[a].0, m[a].1, m[b].0, m[b].1)
        }),
{
    assert(c.collation.processes@[i].wf());
}

/// No stack of the histogram holds a kernel frame.
pub open spec fn no_kernel_stacks(m: Map<Seq<Frame>, u64>) -> bool {
    forall|s: Seq<Frame>, i: int| #[trigger] m.contains_key(s) && 0 <= i < s.len() ==> !is_kernel_frame(#[trigger] s[i])
}

/// With kernel callstacks dropped, counting a sample keeps the histogram
/// free of kernel frames.
pub proof fn lemma_without_kernel_callstacks(
    pre: Collator,
    post: Collator,
    r: Result<(), CollateError>,
    pid: u32,
    tid: u32,
    ufs: Seq<UserFrame>,
    kbt: Seq<u64>,
    fallbacks: Seq<Option<AddressSpaceSymbol>>,
)
    requires
        sample_effect(pre, post, r, pid, tid, ufs, kbt, fallbacks),
        pre.options.without_kernel_callstacks,
        no_kernel_stacks(pre.collation.stacks@),
    ensures
        no_kernel_stacks(post.collation.stacks@),
{
    if !not_selected(pre) && !lacks_process(pre) {
        if let Some(i) = sample_target(pre, pid) {
            let res = stack_of(
                pre.omit_regex,
                pre.collation.kallsyms,
                fallbacks,
                pre.collation.processes@[i],
                pre.collation.binary_by_id@,
                pid,
                tid,
                ufs,
                Seq::empty(),
            );
            if let Ok(Some(s)) = res {
                lemma_stack_without_kernel_frames(
                    pre.omit_regex,
                    pre.collation.kallsyms,
                    fallbacks,
                    pre.collation.processes@[i],
                    pre.collation.binary_by_id@,
                    pid,
                    tid,
                    ufs,
                    s,
                );
                assert forall|t: Seq<Frame>, j: int| #[trigger] post.collation.stacks@.contains_key(t) && 0 <= j
                    < t.len() implies !is_kernel_frame(#[trigger] t[j]) by {
                    if t != s {
                        assert(pre.collation.stacks@.contains_key(t));
                    }
                }
            }
        }
    }
}

/// Only the selected sample is collated: with `only_sample = k`, a sample
/// met while the counter is not `k` leaves the histogram as it was and only
/// moves the counter on, and the sample met at `k`, once counted, moves the
/// counter past `k`, so that no later sample is collated.
pub proof fn lemma_only_sample(
    pre: Collator,
    post: Collator,
    r: Result<(), CollateError>,
    pid: u32,
    tid: u32,
    ufs: Seq<UserFrame>,
    kbt: Seq<u64>,
    fallbacks: Seq<Option<AddressSpaceSymbol>>,
    k: u64,
)
    requires
        sample_effect(pre, post, r, pid, tid, ufs, kbt, fallbacks),
        pre.options.only_sample == Some(k),
    ensures
        post.options == pre.options,
        pre.sample_counter != k ==> r is Ok && post.collation.stacks@ == pre.collation.stacks@
            && post.sample_counter == bump(pre.sample_counter),
        pre.sample_counter == k && r is Ok && k < u64::MAX ==> post.sample_counter == k + 1,
{
}

} // verus!
