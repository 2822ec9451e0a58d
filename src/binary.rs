use vstd::prelude::*;
use std::ops::Range;
use goblin::container::{Container, Ctx, Endian};

use crate::BinaryId;
use crate::bytes::{cstr_at, read_cstr, same_bytes, copy_bytes};
use crate::symbols::{Bitness, Endianness, Symbols, SymbolView, table_symbols, entry_count};
use vstd::multiset::Multiset;
pub use crate::symbols::SymbolTable;

verus! {

/// ELF header fields as goblin reads them: (e_type, e_machine, e_phoff,
/// e_phnum, e_shoff, e_shnum, e_shstrndx, class byte, data byte).
pub type ElfHeaderView = (u16, u16, u64, u16, u64, u16, u16, u8, u8);

/// Section header fields: (sh_name, sh_type, sh_link, sh_offset, sh_size).
pub type SectionView = (usize, u32, u32, u64, u64);

/// Program header fields: (p_type, p_flags, p_offset, p_vaddr, p_filesz,
/// p_memsz, p_align).
pub type ProgramView = (u32, u32, u64, u64, u64, u64, u64);

/// What goblin's ELF header parser reads from the start of `bytes`.
pub uninterp spec fn elf_header_of(bytes: Seq<u8>) -> Option<ElfHeaderView>;

/// What goblin's section header parser reads from `bytes`.
pub uninterp spec fn section_headers_of(
    bytes: Seq<u8>,
    offset: usize,
    count: usize,
    is_64: bool,
    big: bool,
) -> Option<Seq<SectionView>>;

/// What goblin's program header parser reads from `bytes`.
pub uninterp spec fn program_headers_of(
    bytes: Seq<u8>,
    offset: usize,
    count: usize,
    is_64: bool,
    big: bool,
) -> Option<Seq<ProgramView>>;

/// Relies on `goblin::elf::Elf::parse_header`: reads the ELF header, or
/// fails on a buffer without the ELF magic, of an unknown class, or too short.
#[verifier::external_body]
fn parse_header(bytes: &[u8]) -> (r: Option<ElfHeaderView>)
    ensures
        r == elf_header_of(bytes@),
{
    goblin::elf::Elf::parse_header(bytes).ok().map(
        |h| (h.e_type, h.e_machine, h.e_phoff, h.e_phnum, h.e_shoff, h.e_shnum, h.e_shstrndx, h.e_ident[4], h.e_ident[5]),
    )
}

/// Relies on `goblin::elf::SectionHeader::parse`: reads `count` section
/// headers at `offset`, none when `offset` is zero.
#[verifier::external_body]
fn parse_sections(bytes: &[u8], offset: usize, count: usize, is_64: bool, big: bool) -> (r: Option<Vec<SectionView>>)
    ensures
        r matches Some(v) ==> section_headers_of(bytes@, offset, count, is_64, big) == Some(v@),
        r is None ==> section_headers_of(bytes@, offset, count, is_64, big) is None,
{
    let ctx = Ctx::new(if is_64 { Container::Big } else { Container::Little }, if big { Endian::Big } else { Endian::Little });
    goblin::elf::SectionHeader::parse(bytes, offset, count, ctx).ok().map(
        |v| v.iter().map(|s| (s.sh_name, s.sh_type, s.sh_link, s.sh_offset, s.sh_size)).collect(),
    )
}

/// Relies on `goblin::elf::ProgramHeader::parse`: reads `count` program
/// headers at `offset`.
#[verifier::external_body]
fn parse_programs(bytes: &[u8], offset: usize, count: usize, is_64: bool, big: bool) -> (r: Option<Vec<ProgramView>>)
    ensures
        r matches Some(v) ==> program_headers_of(bytes@, offset, count, is_64, big) == Some(v@),
        r is None ==> program_headers_of(bytes@, offset, count, is_64, big) is None,
{
    let ctx = Ctx::new(if is_64 { Container::Big } else { Container::Little }, if big { Endian::Big } else { Endian::Little });
    goblin::elf::ProgramHeader::parse(bytes, offset, count, ctx).ok().map(
        |v| v.iter().map(|p| (p.p_type, p.p_flags, p.p_offset, p.p_vaddr, p.p_filesz, p.p_memsz, p.p_align)).collect(),
    )
}

/// The machines a binary can be built for.
#[derive(Clone, Copy, Debug, PartialEq, Eq, Structural)]
pub enum Arch {
    Amd64,
    X86,
    Arm,
    Mips,
    Mips64,
}

/// The architecture of an ELF machine code.
pub open spec fn arch_of(machine: u16, is_64: bool) -> Option<Arch> {
    if machine == 62 {
        Some(Arch::Amd64)
    } else if machine == 3 {
        Some(Arch::X86)
    } else if machine == 40 {
        Some(Arch::Arm)
    } else if machine == 8 {
        Some(if is_64 { Arch::Mips64 } else { Arch::Mips })
    } else {
        None
    }
}

pub open spec fn arch_name(a: Arch) -> &'static str {
    match a {
        Arch::Amd64 => "amd64",
        Arch::X86 => "x86",
        Arch::Arm => "arm",
        Arch::Mips => "mips",
        Arch::Mips64 => "mips64",
    }
}

impl Arch {
    pub fn name(self) -> (r: &'static str)
        ensures
            r == arch_name(self),
    {
        match self {
            Arch::Amd64 => "amd64",
            Arch::X86 => "x86",
            Arch::Arm => "arm",
            Arch::Mips => "mips",
            Arch::Mips64 => "mips64",
        }
    }
}

/// A loadable segment of a binary.
#[derive(Clone, Copy, Debug)]
pub struct LoadHeader {
    pub address: u64,
    pub file_offset: u64,
    pub file_size: u64,
    pub memory_size: u64,
    pub alignment: u64,
    pub is_readable: bool,
    pub is_writable: bool,
    pub is_executable: bool,
}

/// The load header that a `PT_LOAD` program header describes.
pub open spec fn load_header_of(p: ProgramView) -> LoadHeader {
    LoadHeader {
        address: p.3,
        file_offset: p.2,
        file_size: p.4,
        memory_size: p.5,
        alignment: p.6,
        is_readable: p.1 & 4 != 0,
        is_writable: p.1 & 2 != 0,
        is_executable: p.1 & 1 != 0,
    }
}

/// The load headers of the first `n` program headers.
pub open spec fn loads_upto(ps: Seq<ProgramView>, n: int) -> Seq<LoadHeader>
    decreases n,
{
    if n <= 0 {
        Seq::empty()
    } else if ps[n - 1].0 == 1 {
        loads_upto(ps, n - 1).push(load_header_of(ps[n - 1]))
    } else {
        loads_upto(ps, n - 1)
    }
}

/// The byte range `[offset, offset + size)` of a section, if it does not overflow.
pub open spec fn body_range(s: SectionView) -> Option<(u64, u64)> {
    if s.3 + s.4 <= u64::MAX {
        Some((s.3, (s.3 + s.4) as u64))
    } else {
        None
    }
}

/// The symbol tables that the first `n` sections describe, as (table start,
/// table end, strings start, strings end, dynamic): a `SHT_SYMTAB` or
/// `SHT_DYNSYM` section whose link is a `SHT_STRTAB` section.
pub open spec fn symtabs_upto(ss: Seq<SectionView>, n: int) -> Seq<(u64, u64, u64, u64, bool)>
    decreases n,
{
    if n <= 0 {
        Seq::empty()
    } else {
        let prev = symtabs_upto(ss, n - 1);
        let s = ss[n - 1];
        let link = s.2 as int;
        if (s.1 == 2 || s.1 == 11) && link < ss.len() && ss[link].1 == 3 && body_range(s) is Some && body_range(
            ss[link],
        ) is Some {
            let t = body_range(s)->Some_0;
            let st = body_range(ss[link])->Some_0;
            prev.push((t.0, t.1, st.0, st.1, s.1 == 11))
        } else {
            prev
        }
    }
}

/// The name of a section, read from the section name table `names`.
pub open spec fn section_name(names: Seq<u8>, s: SectionView) -> Option<Seq<u8>> {
    if s.0 < names.len() {
        Some(cstr_at(names, s.0 as int))
    } else {
        None
    }
}

/// The range of the last of the first `n` sections named `name` whose body
/// lies within `bytes`.
pub open spec fn named_range_upto(bytes: Seq<u8>, names: Seq<u8>, ss: Seq<SectionView>, name: Seq<u8>, n: int) -> Option<
    (int, int),
>
    decreases n,
{
    if n <= 0 {
        None
    } else {
        let s = ss[n - 1];
        if section_name(names, s) == Some(name) && s.3 + s.4 <= bytes.len() {
            Some((s.3 as int, s.3 + s.4))
        } else {
            named_range_upto(bytes, names, ss, name, n - 1)
        }
    }
}

pub open spec fn range_view(r: Option<Range<usize>>) -> Option<(int, int)> {
    match r {
        Some(r) => Some((r.start as int, r.end as int)),
        None => None,
    }
}

/// Why a binary cannot be loaded.
#[derive(Clone, Copy, Debug, PartialEq, Eq, Structural)]
pub enum LoadError {
    /// The ELF header, section headers or program headers are malformed.
    Malformed,
    /// The object is neither an executable nor a shared object.
    UnsupportedElfType(u16),
    /// The machine is not one of those supported.
    UnsupportedArchitecture(u16),
    /// The section name table is missing or lies outside the file.
    MissingSectionNames,
    /// The file on disk is not the one expected.
    IdentityMismatch,
}

/// A loaded ELF binary: its bytes and what was read from its headers.
pub struct BinaryData {
    id: BinaryId,
    name: String,
    blob: Vec<u8>,
    data_range: Option<Range<usize>>,
    text_range: Option<Range<usize>>,
    eh_frame_range: Option<Range<usize>>,
    debug_frame_range: Option<Range<usize>>,
    gnu_debuglink_range: Option<Range<usize>>,
    arm_extab_range: Option<Range<usize>>,
    arm_exidx_range: Option<Range<usize>>,
    is_shared_object: bool,
    symbol_tables: Vec<SymbolTable>,
    load_headers: Vec<LoadHeader>,
    architecture: Arch,
    endianness: Endianness,
    bitness: Bitness,
}

/// The names of the sections of interest.
pub open spec fn data_name() -> Seq<u8> { seq![46u8, 100u8, 97u8, 116u8, 97u8] }
pub open spec fn text_name() -> Seq<u8> { seq![46u8, 116u8, 101u8, 120u8, 116u8] }
pub open spec fn eh_frame_name() -> Seq<u8> { seq![46u8, 101u8, 104u8, 95u8, 102u8, 114u8, 97u8, 109u8, 101u8] }
pub open spec fn debug_frame_name() -> Seq<u8> {
    seq![46u8, 100u8, 101u8, 98u8, 117u8, 103u8, 95u8, 102u8, 114u8, 97u8, 109u8, 101u8]
}
pub open spec fn gnu_debuglink_name() -> Seq<u8> {
    seq![46u8, 103u8, 110u8, 117u8, 95u8, 100u8, 101u8, 98u8, 117u8, 103u8, 108u8, 105u8, 110u8, 107u8]
}
pub open spec fn arm_extab_name() -> Seq<u8> { seq![46u8, 65u8, 82u8, 77u8, 46u8, 101u8, 120u8, 116u8, 97u8, 98u8] }
pub open spec fn arm_exidx_name() -> Seq<u8> { seq![46u8, 65u8, 82u8, 77u8, 46u8, 101u8, 120u8, 105u8, 100u8, 120u8] }

/// What loading `bytes` gives, as long as it succeeds: the header, the
/// sections and program headers, and the section name table's bytes.
pub open spec fn loaded_parts(bytes: Seq<u8>) -> Option<(ElfHeaderView, Seq<SectionView>, Seq<ProgramView>, Seq<u8>)> {
    match elf_header_of(bytes) {
        None => None,
        Some(h) => {
            let is_64 = h.7 == 2;
            let big = h.8 == 2;
            if !(h.7 == 1 || h.7 == 2) || !(h.8 == 1 || h.8 == 2) {
                None
            } else {
            match (
                section_headers_of(bytes, h.4 as usize, h.5 as usize, is_64, big),
                program_headers_of(bytes, h.2 as usize, h.3 as usize, is_64, big),
            ) {
                (Some(ss), Some(ps)) => {
                    let k = h.6 as int;
                    if k < ss.len() && ss[k].3 + ss[k].4 <= bytes.len() {
                        Some((h, ss, ps, bytes.subrange(ss[k].3 as int, ss[k].3 + ss[k].4)))
                    } else {
                        None
                    }
                },
                _ => None,
            }
            }
        },
    }
}

/// Whether loading `bytes` succeeds, and the first error otherwise: a bad
/// header, an unsupported object type, an unsupported machine, unreadable
/// section headers, a missing section name table, unreadable program headers.
pub open spec fn load_outcome(bytes: Seq<u8>) -> Result<(), LoadError> {
    match elf_header_of(bytes) {
        None => Err(LoadError::Malformed),
        Some(h) => {
            let is_64 = h.7 == 2;
            let big = h.8 == 2;
            if !(h.7 == 1 || h.7 == 2) || !(h.8 == 1 || h.8 == 2) {
                Err(LoadError::Malformed)
            } else if h.0 != 2 && h.0 != 3 {
                Err(LoadError::UnsupportedElfType(h.0))
            } else if arch_of(h.1, is_64) is None {
                Err(LoadError::UnsupportedArchitecture(h.1))
            } else {
                match section_headers_of(bytes, h.4 as usize, h.5 as usize, is_64, big) {
                    None => Err(LoadError::Malformed),
                    Some(ss) => {
                        let k = h.6 as int;
                        if !(k < ss.len() && ss[k].3 + ss[k].4 <= bytes.len()) {
                            Err(LoadError::MissingSectionNames)
                        } else {
                            match program_headers_of(bytes, h.2 as usize, h.3 as usize, is_64, big) {
                                None => Err(LoadError::Malformed),
                                Some(_) => Ok(()),
                            }
                        }
                    },
                }
            }
        },
    }
}

fn collect_load_headers(ps: &Vec<ProgramView>) -> (r: Vec<LoadHeader>)
    ensures
        r@ == loads_upto(ps@, ps@.len() as int),
{
    let mut out: Vec<LoadHeader> = Vec::new();
    let mut i: usize = 0;
    while i < ps.len()
        invariant
            i <= ps@.len(),
            out@ == loads_upto(ps@, i as int),
        decreases ps@.len() - i,
    {
        let p = ps[i];
        if p.0 == 1 {
            out.push(
                LoadHeader {
                    address: p.3,
                    file_offset: p.2,
                    file_size: p.4,
                    memory_size: p.5,
                    alignment: p.6,
                    is_readable: p.1 & 4 != 0,
                    is_writable: p.1 & 2 != 0,
                    is_executable: p.1 & 1 != 0,
                },
            );
        }
        i = i + 1;
    }
    out
}

fn section_body(s: SectionView) -> (r: Option<Range<u64>>)
    ensures
        r matches Some(rg) ==> body_range(s) == Some((rg.start, rg.end)),
        r is None <==> body_range(s) is None,
{
    if s.4 <= u64::MAX - s.3 {
        Some(s.3..s.3 + s.4)
    } else {
        None
    }
}

fn collect_symbol_tables(ss: &Vec<SectionView>) -> (r: Vec<SymbolTable>)
    ensures
        r@.map_values(|t: SymbolTable| (t.range.start, t.range.end, t.strtab_range.start, t.strtab_range.end, t.is_dynamic))
            == symtabs_upto(ss@, ss@.len() as int),
{
    let mut out: Vec<SymbolTable> = Vec::new();
    let mut i: usize = 0;
    while i < ss.len()
        invariant
            i <= ss@.len(),
            out@.map_values(|t: SymbolTable| (t.range.start, t.range.end, t.strtab_range.start, t.strtab_range.end, t.is_dynamic))
                == symtabs_upto(ss@, i as int),
        decreases ss@.len() - i,
    {
        let s = ss[i];
        let link = s.2 as usize;
        if (s.1 == 2 || s.1 == 11) && link < ss.len() && ss[link].1 == 3 {
            match (section_body(s), section_body(ss[link])) {
                (Some(range), Some(strtab_range)) => {
                    let ghost before = out@;
                    out.push(SymbolTable { range, strtab_range, is_dynamic: s.1 == 11 });
                    proof {
                        assert(out@ == before.push(out@.last()));
                        assert(out@.map_values(|t: SymbolTable| (t.range.start, t.range.end, t.strtab_range.start, t.strtab_range.end, t.is_dynamic))
                            =~= before.map_values(|t: SymbolTable| (t.range.start, t.range.end, t.strtab_range.start, t.strtab_range.end, t.is_dynamic)).push(
                            (range.start, range.end, strtab_range.start, strtab_range.end, s.1 == 11)));
                    }
                },
                _ => {},
            }
        }
        i = i + 1;
    }
    out
}

/// The range of the last section named `name` whose body lies within `bytes`.
fn named_range(bytes: &[u8], names: &[u8], ss: &Vec<SectionView>, name: &[u8]) -> (r: Option<Range<usize>>)
    ensures
        range_view(r) == named_range_upto(bytes@, names@, ss@, name@, ss@.len() as int),
{
    let mut i: usize = ss.len();
    while i > 0
        invariant
            i <= ss@.len(),
            named_range_upto(bytes@, names@, ss@, name@, ss@.len() as int) == named_range_upto(
                bytes@,
                names@,
                ss@,
                name@,
                i as int,
            ),
        decreases i,
    {
        let s = ss[i - 1];
        let blen: usize = bytes.len();
        let in_bytes = s.4 <= u64::MAX - s.3 && s.3 + s.4 <= blen as u64;
        let named = if s.0 < names.len() {
            let found = read_cstr(names, s.0);
            same_bytes(found.as_slice(), name)
        } else {
            false
        };
        proof {
            assert(in_bytes == (s.3 + s.4 <= bytes@.len()));
            assert(named == (section_name(names@, s) == Some(name@)));
        }
        if named && in_bytes {
            return Some(s.3 as usize..(s.3 + s.4) as usize);
        }
        i = i - 1;
    }
    None
}

fn copy_range_opt(r: &Option<Range<usize>>) -> (c: Option<Range<usize>>)
    ensures
        range_view(c) == range_view(*r),
{
    match r {
        Some(r) => Some(r.start..r.end),
        None => None,
    }
}

/// The major number of a Linux device number.
pub open spec fn major_of(dev: u64) -> u64 {
    ((dev >> 32u64) & 0xfffff000u64) | ((dev >> 8u64) & 0xfffu64)
}

/// The minor number of a Linux device number.
pub open spec fn minor_of(dev: u64) -> u64 {
    ((dev >> 12u64) & 0xffffff00u64) | (dev & 0xffu64)
}

/// The major number of a device number, as glibc's `gnu_dev_major` splits it.
pub fn get_major(dev: u64) -> (r: u32)
    ensures
        r as u64 == major_of(dev),
{
    let m = ((dev >> 32u64) & 0xfffff000u64) | ((dev >> 8u64) & 0xfffu64);
    assert(m <= 0xffffffffu64) by (bit_vector)
        requires m == ((dev >> 32u64) & 0xfffff000u64) | ((dev >> 8u64) & 0xfffu64);
    m as u32
}

/// The minor number of a device number, as glibc's `gnu_dev_minor` splits it.
pub fn get_minor(dev: u64) -> (r: u32)
    ensures
        r as u64 == minor_of(dev),
{
    let m = ((dev >> 12u64) & 0xffffff00u64) | (dev & 0xffu64);
    assert(m <= 0xffffffffu64) by (bit_vector)
        requires m == ((dev >> 12u64) & 0xffffff00u64) | (dev & 0xffu64);
    m as u32
}

/// Checks that a file found on disk is the one that was recorded.
pub fn check_identity(expected: Option<BinaryId>, loaded: BinaryId) -> (r: Result<(), LoadError>)
    ensures
        r is Ok <==> (expected matches Some(e) ==> e == loaded),
        r is Err ==> r == Err::<(), LoadError>(LoadError::IdentityMismatch),
{
    match expected {
        Some(e) => if e == loaded {
            Ok(())
        } else {
            Err(LoadError::IdentityMismatch)
        },
        None => Ok(()),
    }
}

impl BinaryData {
    pub closed spec fn spec_id(&self) -> BinaryId { self.id }
    pub closed spec fn spec_name(&self) -> Seq<char> { self.name@ }
    pub closed spec fn spec_bytes(&self) -> Seq<u8> { self.blob@ }
    pub closed spec fn spec_arch(&self) -> Arch { self.architecture }
    pub closed spec fn spec_endianness(&self) -> Endianness { self.endianness }
    pub closed spec fn spec_bitness(&self) -> Bitness { self.bitness }
    pub closed spec fn spec_shared(&self) -> bool { self.is_shared_object }
    pub closed spec fn spec_load_headers(&self) -> Seq<LoadHeader> { self.load_headers@ }
    pub closed spec fn spec_symbol_tables(&self) -> Seq<(u64, u64, u64, u64, bool)> {
        self.symbol_tables@.map_values(|t: SymbolTable| (t.range.start, t.range.end, t.strtab_range.start, t.strtab_range.end, t.is_dynamic))
    }
    pub closed spec fn spec_ranges(&self) -> Seq<Option<(int, int)>> {
        seq![
            range_view(self.data_range),
            range_view(self.text_range),
            range_view(self.eh_frame_range),
            range_view(self.debug_frame_range),
            range_view(self.gnu_debuglink_range),
            range_view(self.arm_extab_range),
            range_view(self.arm_exidx_range),
        ]
    }

    /// Everything read from `bytes` agrees with its headers.
    pub open spec fn loaded_from(&self, bytes: Seq<u8>) -> bool {
        loaded_parts(bytes) matches Some(parts) && {
            let (h, ss, ps, names) = parts;
            let is_64 = h.7 == 2;
            &&& self.spec_bytes() == bytes
            &&& self.spec_bitness() == (if is_64 { Bitness::B64 } else { Bitness::B32 })
            &&& self.spec_endianness() == (if h.8 == 2 { Endianness::BigEndian } else { Endianness::LittleEndian })
            &&& self.spec_shared() == (h.0 == 3)
            &&& arch_of(h.1, is_64) == Some(self.spec_arch())
            &&& self.spec_load_headers() == loads_upto(ps, ps.len() as int)
            &&& self.spec_symbol_tables() == symtabs_upto(ss, ss.len() as int)
            &&& self.spec_ranges() == seq![
                named_range_upto(bytes, names, ss, data_name(), ss.len() as int),
                named_range_upto(bytes, names, ss, text_name(), ss.len() as int),
                named_range_upto(bytes, names, ss, eh_frame_name(), ss.len() as int),
                named_range_upto(bytes, names, ss, debug_frame_name(), ss.len() as int),
                named_range_upto(bytes, names, ss, gnu_debuglink_name(), ss.len() as int),
                named_range_upto(bytes, names, ss, arm_extab_name(), ss.len() as int),
                named_range_upto(bytes, names, ss, arm_exidx_name(), ss.len() as int),
            ]
        }
    }
}

impl BinaryData {
    fn load(path: &str, id: BinaryId, blob: Vec<u8>) -> (r: Result<BinaryData, LoadError>)
        ensures
            r is Ok <==> load_outcome(blob@) is Ok,
            r matches Err(e) ==> load_outcome(blob@) == Err::<(), LoadError>(e),
            r matches Ok(b) ==> b.loaded_from(blob@) && b.spec_id() == id && b.spec_name() == path@,
    {
        let h = match parse_header(blob.as_slice()) {
            Some(h) => h,
            None => return Err(LoadError::Malformed),
        };
        if !(h.7 == 1 || h.7 == 2) || !(h.8 == 1 || h.8 == 2) {
            return Err(LoadError::Malformed);
        }
        let is_64 = h.7 == 2;
        let big = h.8 == 2;
        if h.0 != 2 && h.0 != 3 {
            return Err(LoadError::UnsupportedElfType(h.0));
        }
        let is_shared_object = h.0 == 3;
        let architecture = if h.1 == 62 {
            Arch::Amd64
        } else if h.1 == 3 {
            Arch::X86
        } else if h.1 == 40 {
            Arch::Arm
        } else if h.1 == 8 {
            if is_64 { Arch::Mips64 } else { Arch::Mips }
        } else {
            return Err(LoadError::UnsupportedArchitecture(h.1));
        };
        let ss = match parse_sections(blob.as_slice(), h.4 as usize, h.5 as usize, is_64, big) {
            Some(ss) => ss,
            None => return Err(LoadError::Malformed),
        };
        let k = h.6 as usize;
        let names_ok = if k < ss.len() {
            let sk = ss[k];
            let blen: usize = blob.len();
            sk.4 <= u64::MAX - sk.3 && sk.3 + sk.4 <= blen as u64
        } else {
            false
        };
        if !names_ok {
            proof {
                assert(arch_of(h.1, is_64) is Some);
            }
            return Err(LoadError::MissingSectionNames);
        }
        let ps = match parse_programs(blob.as_slice(), h.2 as usize, h.3 as usize, is_64, big) {
            Some(ps) => ps,
            None => return Err(LoadError::Malformed),
        };
        let names_start = ss[k].3 as usize;
        let names_end = (ss[k].3 + ss[k].4) as usize;
        let names = &blob.as_slice()[names_start..names_end];
        let b = blob.as_slice();
        let data_n: Vec<u8> = vec![46u8, 100u8, 97u8, 116u8, 97u8];
        let text_n: Vec<u8> = vec![46u8, 116u8, 101u8, 120u8, 116u8];
        let eh_n: Vec<u8> = vec![46u8, 101u8, 104u8, 95u8, 102u8, 114u8, 97u8, 109u8, 101u8];
        let dbg_n: Vec<u8> = vec![46u8, 100u8, 101u8, 98u8, 117u8, 103u8, 95u8, 102u8, 114u8, 97u8, 109u8, 101u8];
        let link_n: Vec<u8> = vec![46u8, 103u8, 110u8, 117u8, 95u8, 100u8, 101u8, 98u8, 117u8, 103u8, 108u8, 105u8, 110u8, 107u8];
        let extab_n: Vec<u8> = vec![46u8, 65u8, 82u8, 77u8, 46u8, 101u8, 120u8, 116u8, 97u8, 98u8];
        let exidx_n: Vec<u8> = vec![46u8, 65u8, 82u8, 77u8, 46u8, 101u8, 120u8, 105u8, 100u8, 120u8];
        proof {
            assert(data_n@ =~= data_name());
            assert(text_n@ =~= text_name());
            assert(eh_n@ =~= eh_frame_name());
            assert(dbg_n@ =~= debug_frame_name());
            assert(link_n@ =~= gnu_debuglink_name());
            assert(extab_n@ =~= arm_extab_name());
            assert(exidx_n@ =~= arm_exidx_name());
        }
        let data_range = named_range(b, names, &ss, data_n.as_slice());
        let text_range = named_range(b, names, &ss, text_n.as_slice());
        let eh_frame_range = named_range(b, names, &ss, eh_n.as_slice());
        let debug_frame_range = named_range(b, names, &ss, dbg_n.as_slice());
        let gnu_debuglink_range = named_range(b, names, &ss, link_n.as_slice());
        let arm_extab_range = named_range(b, names, &ss, extab_n.as_slice());
        let arm_exidx_range = named_range(b, names, &ss, exidx_n.as_slice());
        let symbol_tables = collect_symbol_tables(&ss);
        let load_headers = collect_load_headers(&ps);
        let binary = BinaryData {
            id,
            name: path.to_owned(),
            blob,
            data_range,
            text_range,
            eh_frame_range,
            debug_frame_range,
            gnu_debuglink_range,
            arm_extab_range,
            arm_exidx_range,
            is_shared_object,
            symbol_tables,
            load_headers,
            architecture,
            endianness: if big { Endianness::BigEndian } else { Endianness::LittleEndian },
            bitness: if is_64 { Bitness::B64 } else { Bitness::B32 },
        };
        proof {
            assert(binary.spec_ranges() =~= seq![
                range_view(data_range),
                range_view(text_range),
                range_view(eh_frame_range),
                range_view(debug_frame_range),
                range_view(gnu_debuglink_range),
                range_view(arm_extab_range),
                range_view(arm_exidx_range),
            ]);
        }
        Ok(binary)
    }

    /// Loads a binary from bytes that stay in place for the program's lifetime.
    pub fn load_from_static_slice(name: &str, id: BinaryId, slice: &'static [u8]) -> (r: Result<BinaryData, LoadError>)
        ensures
            r is Ok <==> load_outcome(slice@) is Ok,
            r matches Err(e) ==> load_outcome(slice@) == Err::<(), LoadError>(e),
            r matches Ok(b) ==> b.loaded_from(slice@) && b.spec_id() == id && b.spec_name() == name@,
    {
        BinaryData::load(name, id, copy_bytes(slice))
    }

    /// Loads a binary from its bytes.
    pub fn load_from_owned_bytes(name: &str, id: BinaryId, bytes: Vec<u8>) -> (r: Result<BinaryData, LoadError>)
        ensures
            r is Ok <==> load_outcome(bytes@) is Ok,
            r matches Err(e) ==> load_outcome(bytes@) == Err::<(), LoadError>(e),
            r matches Ok(b) ==> b.loaded_from(bytes@) && b.spec_id() == id && b.spec_name() == name@,
    {
        BinaryData::load(name, id, bytes)
    }

    pub fn id(&self) -> (r: &BinaryId)
        ensures
            *r == self.spec_id(),
    {
        &self.id
    }

    pub fn name(&self) -> (r: &str)
        ensures
            r@ == self.spec_name(),
    {
        self.name.as_str()
    }

    pub fn architecture(&self) -> (r: &'static str)
        ensures
            r == arch_name(self.spec_arch()),
    {
        self.architecture.name()
    }

    pub fn endianness(&self) -> (r: Endianness)
        ensures
            r == self.spec_endianness(),
    {
        self.endianness
    }

    pub fn bitness(&self) -> (r: Bitness)
        ensures
            r == self.spec_bitness(),
    {
        self.bitness
    }

    pub fn symbol_tables(&self) -> (r: &[SymbolTable])
        ensures
            r@.map_values(|t: SymbolTable| (t.range.start, t.range.end, t.strtab_range.start, t.strtab_range.end, t.is_dynamic))
                == self.spec_symbol_tables(),
    {
        self.symbol_tables.as_slice()
    }

    pub fn as_bytes(&self) -> (r: &[u8])
        ensures
            r@ == self.spec_bytes(),
    {
        self.blob.as_slice()
    }

    pub fn is_shared_object(&self) -> (r: bool)
        ensures
            r == self.spec_shared(),
    {
        self.is_shared_object
    }

    pub fn data_range(&self) -> (r: Option<Range<usize>>)
        ensures
            range_view(r) == self.spec_ranges()[0],
    {
        copy_range_opt(&self.data_range)
    }

    pub fn text_range(&self) -> (r: Option<Range<usize>>)
        ensures
            range_view(r) == self.spec_ranges()[1],
    {
        copy_range_opt(&self.text_range)
    }

    pub fn eh_frame_range(&self) -> (r: Option<Range<usize>>)
        ensures
            range_view(r) == self.spec_ranges()[2],
    {
        copy_range_opt(&self.eh_frame_range)
    }

    pub fn debug_frame_range(&self) -> (r: Option<Range<usize>>)
        ensures
            range_view(r) == self.spec_ranges()[3],
    {
        copy_range_opt(&self.debug_frame_range)
    }

    pub fn gnu_debuglink_range(&self) -> (r: Option<Range<usize>>)
        ensures
            range_view(r) == self.spec_ranges()[4],
    {
        copy_range_opt(&self.gnu_debuglink_range)
    }

    pub fn arm_extab_range(&self) -> (r: Option<Range<usize>>)
        ensures
            range_view(r) == self.spec_ranges()[5],
    {
        copy_range_opt(&self.arm_extab_range)
    }

    pub fn arm_exidx_range(&self) -> (r: Option<Range<usize>>)
        ensures
            range_view(r) == self.spec_ranges()[6],
    {
        copy_range_opt(&self.arm_exidx_range)
    }

    pub fn load_headers(&self) -> (r: &[LoadHeader])
        ensures
            r@ == self.spec_load_headers(),
    {
        self.load_headers.as_slice()
    }
}

/// The address range of each load segment, `[address, address + memory_size)`.
pub open spec fn segment_ranges(ls: Seq<LoadHeader>) -> Seq<(u64, u64)> {
    ls.map_values(|l: LoadHeader| (l.address, if l.address + l.memory_size <= u64::MAX { (l.address + l.memory_size) as u64 } else { u64::MAX }))
}

/// The symbols of the first `n` symbol tables of a binary, each table with
/// its string table, as far as both lie within `bytes`; only symbols within
/// a load segment count.
pub open spec fn binary_symbols(
    bytes: Seq<u8>,
    tables: Seq<(u64, u64, u64, u64, bool)>,
    segs: Seq<(u64, u64)>,
    is_64: bool,
    big: bool,
    n: int,
) -> Multiset<SymbolView>
    decreases n,
{
    if n <= 0 {
        Multiset::empty()
    } else {
        let prev = binary_symbols(bytes, tables, segs, is_64, big, n - 1);
        let t = tables[n - 1];
        if t.0 <= t.1 <= bytes.len() && t.2 <= t.3 <= bytes.len() {
            let symtab = bytes.subrange(t.0 as int, t.1 as int);
            prev.add(
                table_symbols(
                    symtab,
                    bytes.subrange(t.2 as int, t.3 as int),
                    entry_count(symtab, is_64),
                    is_64,
                    big,
                    t.4,
                    Some(segs),
                ).to_multiset(),
            )
        } else {
            prev
        }
    }
}

impl Symbols {
    /// Indexes the symbol tables of a loaded binary, keeping only symbols
    /// that lie within one of its load segments. Tables whose bytes lie
    /// outside the binary are passed over.
    pub fn load_from_binary_data(binary: &BinaryData) -> (r: Symbols)
        ensures
            r.wf(),
            r@.to_multiset() == binary_symbols(
                binary.spec_bytes(),
                binary.spec_symbol_tables(),
                segment_ranges(binary.spec_load_headers()),
                binary.spec_bitness() == Bitness::B64,
                binary.spec_endianness() == Endianness::BigEndian,
                binary.spec_symbol_tables().len() as int,
            ),
    {
        let mut segments: Vec<(u64, u64)> = Vec::new();
        let loads = binary.load_headers();
        let mut i: usize = 0;
        while i < loads.len()
            invariant
                i <= loads@.len(),
                segments@ == segment_ranges(loads@.subrange(0, i as int)),
            decreases loads@.len() - i,
        {
            let l = loads[i];
            let end = if l.memory_size <= u64::MAX - l.address { l.address + l.memory_size } else { u64::MAX };
            segments.push((l.address, end));
            proof {
                assert(loads@.subrange(0, i as int + 1) =~= loads@.subrange(0, i as int).push(l));
                assert(segment_ranges(loads@.subrange(0, i as int + 1)) =~= segment_ranges(loads@.subrange(0, i as int)).push((l.address, end)));
            }
            i = i + 1;
        }
        proof {
            assert(loads@.subrange(0, loads@.len() as int) =~= loads@);
        }
        let ghost segv = segments@;
        let segs = Some(segments);
        let bytes = binary.as_bytes();
        let n = bytes.len();
        let tables = binary.symbol_tables();
        let bitness = binary.bitness();
        let endianness = binary.endianness();
        let ghost tv = binary.spec_symbol_tables();
        let mut symbols = Symbols::new();
        proof {
            vstd::seq_lib::to_multiset_len(symbols@);
            vstd::multiset::lemma_multiset_empty_len(symbols@.to_multiset());
        }
        let mut t: usize = 0;
        while t < tables.len()
            invariant
                symbols.wf(),
                t <= tables@.len(),
                n == bytes@.len(),
                bytes@ == binary.spec_bytes(),
                tables@.map_values(|t: SymbolTable| (t.range.start, t.range.end, t.strtab_range.start, t.strtab_range.end, t.is_dynamic)) == tv,
                segs is Some && segs->Some_0@ == segv,
                segv == segment_ranges(binary.spec_load_headers()),
                bitness == binary.spec_bitness(),
                endianness == binary.spec_endianness(),
                symbols@.to_multiset() == binary_symbols(
                    bytes@,
                    tv,
                    segv,
                    bitness == Bitness::B64,
                    endianness == Endianness::BigEndian,
                    t as int,
                ),
            decreases tables@.len() - t,
        {
            let table = &tables[t];
            let (a, b) = (table.range.start, table.range.end);
            let (c, d) = (table.strtab_range.start, table.strtab_range.end);
            proof {
                assert(tv[t as int] == (a, b, c, d, table.is_dynamic));
            }
            if a <= b && b <= n as u64 && c <= d && d <= n as u64 {
                let symtab = &bytes[a as usize..b as usize];
                let strtab = &bytes[c as usize..d as usize];
                symbols.add_table(symtab, strtab, table.is_dynamic, bitness, endianness, &segs);
            }
            t = t + 1;
        }
        symbols
    }
}

} // verus!
