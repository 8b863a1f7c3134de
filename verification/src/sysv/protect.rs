//! Gives the loaded segments the protection that their program headers ask for.

use crate::arena::Handle;
use crate::elf::{PF_R, PF_W, PF_X};
use crate::manifold::Manifold;
use crate::object::Segment;
use crate::sysv::loader::{page_of, split_page};
use vstd::prelude::*;

verus! {

/// Protection bit: the pages can be read.
pub const PROT_READ: u32 = 1;

/// Protection bit: the pages can be written.
pub const PROT_WRITE: u32 = 2;

/// Protection bit: the pages can be executed.
pub const PROT_EXEC: u32 = 4;

/// Whether bit number `n` of `flags` is set.
pub open spec fn bit(flags: u32, n: nat) -> bool {
    if n == 0 {
        flags % 2 == 1
    } else if n == 1 {
        flags / 2 % 2 == 1
    } else {
        flags / 4 % 2 == 1
    }
}

/// The protection that the segment flags `p_flags` ask for: readable, writable and executable
/// pages for the flags `PF_R`, `PF_W` and `PF_X`, and nothing for any other flag.
pub open spec fn spec_flags_to_prot(p_flags: u32) -> u32 {
    ((if bit(p_flags, 2) {
        1int
    } else {
        0int
    }) + (if bit(p_flags, 1) {
        2int
    } else {
        0int
    }) + (if bit(p_flags, 0) {
        4int
    } else {
        0int
    })) as u32
}

/// The protection that the segment flags `p_flags` ask for.
pub fn flags_to_prot(p_flags: u32) -> (prot: u32)
    ensures
        prot == spec_flags_to_prot(p_flags),
        prot <= 7,
{
    assert((p_flags & 4 != 0) == (p_flags / 4 % 2 == 1)) by (bit_vector);
    assert((p_flags & 2 != 0) == (p_flags / 2 % 2 == 1)) by (bit_vector);
    assert((p_flags & 1 != 0) == (p_flags % 2 == 1)) by (bit_vector);
    let mut prot: u32 = 0;
    if p_flags & PF_R != 0 {
        prot = prot + PROT_READ;
    }
    if p_flags & PF_W != 0 {
        prot = prot + PROT_WRITE;
    }
    if p_flags & PF_X != 0 {
        prot = prot + PROT_EXEC;
    }
    prot
}

/// What the caller must ask of the operating system for a segment: the protection `prot` for
/// the `length` bytes from the page-aligned address `addr` on.
#[derive(Debug, Clone, Copy, PartialEq, Eq, Structural)]
pub struct ProtectPlan {
    pub addr: usize,
    pub length: usize,
    pub prot: u32,
}

/// What is asked for the segment `s`: nothing where it is not loaded or takes no memory; else
/// the protection of its flags for the pages that hold its loaded image.
pub open spec fn spec_protect(s: &Segment) -> Option<ProtectPlan> {
    match s.loaded_mapping {
        None => None,
        Some(m) => if s.mem_size == 0 {
            None
        } else {
            Some(
                ProtectPlan {
                    addr: page_of(m.spec_addr()),
                    length: if s.mem_size + m.spec_addr() % 0x1000 <= usize::MAX {
                        (s.mem_size + m.spec_addr() % 0x1000) as usize
                    } else {
                        usize::MAX
                    },
                    prot: spec_flags_to_prot(s.flags),
                },
            )
        },
    }
}

/// Protector of the loaded segments.
#[derive(Debug)]
pub struct SysvProtect {}

impl SysvProtect {
    pub fn new() -> Self {
        Self {  }
    }

    /// Name of the module.
    pub fn name(&self) -> (n: &'static str)
        ensures
            n == "sysv-protect",
    {
        "sysv-protect"
    }

    /// What must be asked of the operating system for the segment `segment`: the protection
    /// that the segment's flags give, for the pages of its loaded image, or nothing for a
    /// segment that is not loaded or takes no memory. The manifold is not changed, so asking
    /// twice asks the same.
    pub fn process_segment(&self, segment: Handle<Segment>, manifold: &Manifold) -> (p: Option<ProtectPlan>)
        requires
            manifold.segments.contains(segment),
        ensures
            p == spec_protect(&manifold.segments@[segment.index() as int]),
    {
        let s = manifold.segments.index(segment);
        match &s.loaded_mapping {
            None => None,
            Some(mapping) => {
                if s.mem_size == 0 {
                    return None;
                }
                let (page, offset) = split_page(mapping.addr());
                Some(
                    ProtectPlan {
                        addr: page,
                        length: crate::elf::saturating_sum(s.mem_size, offset),
                        prot: flags_to_prot(s.flags),
                    },
                )
            },
        }
    }
}

/// Protecting twice asks for what protecting once asks for: what is asked for a segment
/// depends on nothing but the segment's flags, its size in memory and the address of its
/// loaded image, none of which protecting changes.
pub proof fn lemma_protect_is_idempotent(first: Segment, second: Segment)
    requires
        second.flags == first.flags,
        second.mem_size == first.mem_size,
        second.loaded_mapping.is_some() == first.loaded_mapping.is_some(),
        first.loaded_mapping matches Some(a) ==> second.loaded_mapping matches Some(b)
            && a.spec_addr() == b.spec_addr(),
    ensures
        spec_protect(&second) == spec_protect(&first),
{
}

/// The protection asked for is exactly that of the flags: every one of the three bits is set
/// where, and only where, its flag is.
pub proof fn lemma_prot_bits(p_flags: u32)
    ensures
        bit(spec_flags_to_prot(p_flags), 0) == bit(p_flags, 2),
        bit(spec_flags_to_prot(p_flags), 1) == bit(p_flags, 1),
        bit(spec_flags_to_prot(p_flags), 2) == bit(p_flags, 0),
        spec_flags_to_prot(p_flags) <= 7,
{
}

} // verus!
