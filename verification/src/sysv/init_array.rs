//! The functions that an object wants called before and after the program.

use crate::arena::Handle;
use crate::elf::{ElfItem, ElfItemIterator};
use crate::manifold::Manifold;
use crate::object::Section;
use crate::sysv::loader::{base_of, spec_base_of};
use crate::sysv::relocation::{sum64, wrap64};
use vstd::prelude::*;

verus! {

/// Caller of the functions of an `.init_array` or `.fini_array` section.
#[derive(Debug)]
pub struct SysvInitArray {}

impl SysvInitArray {
    pub fn new() -> Self {
        Self {  }
    }

    /// Name of the module.
    pub fn name(&self) -> (n: &'static str)
        ensures
            n == "sysv-init-array",
    {
        "sysv-init-array"
    }

    /// The addresses of the functions of the section `section`, in the order in which they
    /// are to be called: each entry of the section plus the base of the object, or the entry
    /// itself where the object has no base.
    pub fn functions(&self, section: Handle<Section>, manifold: &Manifold) -> (r: Vec<u64>)
        requires
            manifold.wf(),
            manifold.sections.contains(section),
        ensures
            ({
                let s = &manifold.sections@[section.index() as int];
                let base = match spec_base_of(&manifold.objects@[s.obj.index() as int]) {
                    Some(b) => b,
                    None => 0,
                };
                &&& r@.len() == s.entries::<u64>().len()
                &&& forall|i: int|
                    0 <= i < r@.len() ==> #[trigger] r@[i] == wrap64(s.entries::<u64>()[i] + base)
            }),
    {
        assert(manifold.section_owned(section.index() as int));
        let s = manifold.sections.index(section);
        let base = match base_of(manifold.objects.index(s.obj)) {
            Some(b) => b,
            None => 0,
        };
        let mut out: Vec<u64> = Vec::new();
        if s.entity_size != u64::size() {
            return out;
        }
        let mut it = ElfItemIterator::<u64>::from_section(s);
        let ghost entries = s.entries::<u64>();
        assert(entries.subrange(0, entries.len() as int) =~= entries);
        loop
            invariant
                it.item_size() == u64::spec_size(),
                manifold.sections.contains(section),
                *s == manifold.sections@[section.index() as int],
                base == match spec_base_of(&manifold.objects@[s.obj.index() as int]) {
                    Some(b) => b,
                    None => 0,
                },
                entries == s.entries::<u64>(),
                out@.len() <= entries.len(),
                it.remaining() == entries.subrange(out@.len() as int, entries.len() as int),
                forall|i: int| 0 <= i < out@.len() ==> #[trigger] out@[i] == wrap64(entries[i] + base),
            decreases it.remaining().len(),
        {
            let ghost k = out@.len() as int;
            assert(entries.subrange(k, entries.len() as int).len() == entries.len() - k);
            match it.next() {
                None => {
                    return out;
                },
                Some(addr) => {
                    assert(addr == entries[k]);
                    assert(entries.subrange(k, entries.len() as int).drop_first()
                        =~= entries.subrange(k + 1, entries.len() as int));
                    out.push(sum64(addr, base as u64));
                },
            }
        }
    }
}

} // verus!
