//! Thread-local storage: collecting the modules, laying out the block, relocating.

use crate::musl::STACK_GUARD;
use crate::sysv::tls::allocation::{byte_of, le_byte};
use vstd::prelude::*;

pub mod allocation;
pub mod collection;
pub mod relocation;

verus! {

/// Size of the head of a thread control block for a program without modules.
pub const TCB_HEAD_SIZE: usize = 704;

/// Size of a page of memory.
pub const PAGE_SIZE: usize = 4096;

/// Number of the system call that sets the FS register.
pub const SYS_ARCH_PRCTL: u64 = 158;

/// Code that asks that system call to set the FS register.
pub const ARCH_SET_FS: u64 = 0x1002;

/// Number of the system call that gives the id of the thread.
pub const SYS_GETTID: u64 = 186;

/// Minimal thread-local storage, for a program whose objects have none of their own.
#[derive(Debug)]
pub struct SysvTls {}

/// Word `k` of the head of a thread control block at `addr`: words 0 and 2, the control block
/// and the thread pointer, point to `addr`; words 5 and 6 are the stack guard and the pointer
/// guard; all other words are 0.
pub open spec fn head_word(addr: usize, k: int) -> u64 {
    if k == 0 || k == 2 {
        addr as u64
    } else if k == 5 || k == 6 {
        STACK_GUARD
    } else {
        0
    }
}

/// The bytes of a block of `storage_size` bytes of storage followed by the head of a thread
/// control block, for a block at `addr`: zeros for the storage, then the words of the head.
pub open spec fn spec_tcb_head(addr: usize, storage_size: usize) -> Seq<u8> {
    Seq::new(
        (storage_size + 704) as nat,
        |p: int|
            if p < storage_size {
                0u8
            } else {
                le_byte(head_word(addr, (p - storage_size) / 8), (p - storage_size) % 8)
            },
    )
}

/// Builds the bytes of a block of `storage_size` bytes of storage followed by the head of a
/// thread control block, for a block at `addr`. The block must fit the address space.
pub fn build_tcb_head(addr: usize, storage_size: usize) -> (block: Vec<u8>)
    requires
        storage_size + 704 <= usize::MAX,
    ensures
        block@ == spec_tcb_head(addr, storage_size),
        block@.len() == storage_size + 704,
{
    let total = storage_size + TCB_HEAD_SIZE;
    let mut block: Vec<u8> = Vec::new();
    let mut p: usize = 0;
    while p < total
        invariant
            p <= total,
            total == storage_size + 704,
            block@.len() == p,
            forall|i: int| 0 <= i < p ==> block@[i] == spec_tcb_head(addr, storage_size)[i],
        decreases total - p,
    {
        let b = if p < storage_size {
            0
        } else {
            let k = (p - storage_size) / 8;
            let word: u64 = if k == 0 || k == 2 {
                addr as u64
            } else if k == 5 || k == 6 {
                STACK_GUARD
            } else {
                0
            };
            byte_of(word, (p - storage_size) % 8)
        };
        block.push(b);
        p = p + 1;
    }
    assert(block@ =~= spec_tcb_head(addr, storage_size));
    block
}

impl SysvTls {
    pub fn new() -> Self {
        Self {  }
    }

    /// Name of the module.
    pub fn name(&self) -> (n: &'static str)
        ensures
            n == "sysv-tls",
    {
        "sysv-tls"
    }

    /// Size of the block for `slots` words of storage, or `None` where it exceeds the largest
    /// machine word.
    pub fn size(slots: usize) -> (r: Option<usize>)
        ensures
            r == if slots * 8 + 704 <= usize::MAX {
                Some((slots * 8 + 704) as usize)
            } else {
                None
            },
    {
        if slots > (usize::MAX - TCB_HEAD_SIZE) / 8 {
            None
        } else {
            Some(slots * 8 + TCB_HEAD_SIZE)
        }
    }
}

} // verus!
