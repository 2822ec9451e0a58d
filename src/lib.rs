use vstd::prelude::*;

pub mod binary;
pub mod bytes;
pub mod collate;
pub mod chunks;
pub mod demangle;
pub mod filter;
pub mod frame;
pub mod histogram;
pub mod kallsyms;
pub mod output;
pub mod keyed;
pub mod range_map;
pub mod symbols;

verus! {

/// Identity of a file-backed mapping: inode plus device numbers.
#[derive(Clone, Copy, Debug, PartialEq, Eq, Hash, Structural)]
pub struct BinaryId {
    pub inode: u64,
    pub dev_major: u32,
    pub dev_minor: u32,
}

} // verus!
