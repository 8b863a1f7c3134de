use crate::arena::Handle;
use crate::bytes::to_vec;
use crate::elf::ProgramHeader;
use crate::file::{Mapping, MappingMut};
use crate::manifold::Manifold;
use crate::object::Object;
use crate::share_map::ShareMap;
use vstd::prelude::*;
use vstd::slice::slice_subrange;

verus! {

/// Representation of an ELF segment in the manifold: one entry of the program header table.
#[derive(Debug)]
pub struct Segment {
    /// The part of the file that this segment covers.
    pub mapping: Mapping,
    /// Where the segment was loaded, once it was.
    pub loaded_mapping: Option<MappingMut>,
    /// The object containing this segment.
    pub obj: Handle<Object>,
    /// The type of the program header (p_type).
    pub tag: u32,
    /// Segment flags.
    pub flags: u32,
    /// Offset of the segment in the file.
    pub offset: usize,
    /// Virtual address of the segment.
    pub vaddr: usize,
    /// Physical address of the segment.
    pub paddr: usize,
    /// Size of the segment in the file.
    pub file_size: usize,
    /// Size of the segment in memory.
    pub mem_size: usize,
    /// Required alignment for the segment.
    pub align: usize,
    /// Shared memory specific to this segment.
    pub shared: ShareMap,
}

impl Segment {
    /// Whether the content of `header` lies inside a file of `len` bytes and fits the machine.
    pub open spec fn fits(header: ProgramHeader, len: nat) -> bool {
        header.p_offset + header.p_filesz <= len
    }

    /// Whether this segment is what `header` describes in the file `raw` of the object `obj`.
    pub open spec fn describes(&self, header: ProgramHeader, obj: Handle<Object>, raw: Seq<u8>) -> bool {
        &&& self.mapping@ == raw.subrange(
            header.p_offset as int,
            header.p_offset + header.p_filesz,
        )
        &&& self.loaded_mapping.is_none()
        &&& self.obj == obj
        &&& self.tag == header.p_type
        &&& self.flags == header.p_flags
        &&& self.offset == header.p_offset as usize
        &&& self.vaddr == header.p_vaddr as usize
        &&& self.paddr == header.p_paddr as usize
        &&& self.file_size == header.p_filesz as usize
        &&& self.mem_size == header.p_memsz as usize
        &&& self.align == header.p_align as usize
    }

    /// The segment that `header` describes in the object `obj_idx`. The bytes that the header
    /// announces must lie inside the object's file.
    pub fn new(header: &ProgramHeader, obj_idx: Handle<Object>, manifold: &Manifold) -> (s: Self)
        requires
            manifold.objects.contains(obj_idx),
            Self::fits(*header, manifold.objects@[obj_idx.index() as int].mapping@.len()),
        ensures
            s.describes(*header, obj_idx, manifold.objects@[obj_idx.index() as int].mapping@),
    {
        let obj = manifold.objects.index(obj_idx);
        let raw = obj.mapping.bytes();
        let _total = raw.len();
        let start = header.p_offset as usize;
        let end = (header.p_offset + header.p_filesz) as usize;
        Self {
            mapping: Mapping::new(to_vec(slice_subrange(raw, start, end))),
            loaded_mapping: None,
            obj: obj_idx,
            tag: header.p_type,
            flags: header.p_flags,
            offset: header.p_offset as usize,
            vaddr: header.p_vaddr as usize,
            paddr: header.p_paddr as usize,
            file_size: header.p_filesz as usize,
            mem_size: header.p_memsz as usize,
            align: header.p_align as usize,
            shared: ShareMap::new(),
        }
    }
}

} // verus!
