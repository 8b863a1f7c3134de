//! The manifold: every object of the program with its segments and sections.

use crate::arena::{Arena, Handle};
use crate::elf::{
    spec_sym_bindings, ElfItem, ProgramHeader, SectionHeader, Sym, SHN_UNDEF, SHT_DYNSYM,
    SHT_SYMTAB, STB_GLOBAL, STB_LOCAL, STB_WEAK,
};
use crate::env::Env;
use crate::error::FoldError;
use crate::file::Mapping;
use crate::object::{
    defines, finds, header_defect, reports, search_bound, spec_find_bound, table_at,
    table_defines, Lookup, Object, Section, Segment,
};
use crate::share_map::{ShareMap, Shared};
use std::sync::Arc;
use vstd::prelude::*;

verus! {

/// The manifold is an intermediate representation of all objects composing a program.
#[derive(Debug)]
pub struct Manifold {
    pub objects: Arena<Object>,
    pub sections: Arena<Section>,
    pub segments: Arena<Segment>,
    pub shared: ShareMap,
    pub env: Env,
}

/// Why the file `raw` is refused by the manifold, if it is. In this order: a defect of its
/// header; a size of program header entries or of section header entries that is not that of
/// the records, where the table has entries; a table that the file does not hold in full; a
/// segment whose content the file does not hold in full.
pub open spec fn ingest_defect(raw: Seq<u8>) -> Option<FoldError> {
    match header_defect(raw) {
        Some(e) => Some(e),
        None => {
            let hdr = crate::elf::ElfHeader::decode_at(raw, 0);
            if hdr.e_phnum > 0 && hdr.e_phentsize != 56 {
                Some(
                    FoldError::InvalidEntrySize { wanted: 56, found: hdr.e_phentsize as usize },
                )
            } else if hdr.e_shnum > 0 && hdr.e_shentsize != 64 {
                Some(
                    FoldError::InvalidEntrySize { wanted: 64, found: hdr.e_shentsize as usize },
                )
            } else if hdr.e_phnum > 0 && hdr.e_phoff + hdr.e_phnum * 56 > raw.len() {
                Some(FoldError::OutOfBounds)
            } else if hdr.e_shnum > 0 && hdr.e_shoff + hdr.e_shnum * 64 > raw.len() {
                Some(FoldError::OutOfBounds)
            } else if exists|k: int|
                0 <= k < hdr.e_phnum && !Segment::fits(
                    #[trigger] program_header(raw, k),
                    raw.len(),
                ) {
                Some(FoldError::OutOfBounds)
            } else {
                None
            }
        },
    }
}

/// Entry `k` of the program header table of the file `raw`.
pub open spec fn program_header(raw: Seq<u8>, k: int) -> ProgramHeader {
    ProgramHeader::decode_at(raw, crate::elf::ElfHeader::decode_at(raw, 0).e_phoff + k * 56)
}

/// Entry `k` of the section header table of the file `raw`.
pub open spec fn section_header(raw: Seq<u8>, k: int) -> SectionHeader {
    SectionHeader::decode_at(raw, crate::elf::ElfHeader::decode_at(raw, 0).e_shoff + k * 64)
}

impl Manifold {
    /// Whether section `i` of the manifold belongs to a live object.
    pub open spec fn section_owned(&self, i: int) -> bool {
        self.objects.contains(self.sections@[i].obj)
    }

    /// Whether segment `i` of the manifold belongs to a live object.
    pub open spec fn segment_owned(&self, i: int) -> bool {
        self.objects.contains(self.segments@[i].obj)
    }

    /// Whether the children of object `o` are what the manifold holds for it: each handle of
    /// its lists designates a section or a segment of the manifold that names `o` as its
    /// owner, and each dependency is an object of the manifold.
    pub open spec fn object_consistent(&self, o: int) -> bool {
        let obj = self.objects@[o];
        &&& obj.mapping@.len() >= 64
        &&& forall|k: int|
            0 <= k < obj.sections@.len() ==> {
                let h = #[trigger] obj.sections@[k];
                &&& self.sections.contains(h)
                &&& self.sections@[h.index() as int].obj.index() == o
                &&& self.sections@[h.index() as int].mapping == obj.mapping
            }
        &&& forall|k: int|
            0 <= k < obj.segments@.len() ==> {
                let h = #[trigger] obj.segments@[k];
                &&& self.segments.contains(h)
                &&& self.segments@[h.index() as int].obj.index() == o
            }
        &&& forall|k: int|
            0 <= k < obj.dependencies@.len() ==> self.objects.contains(
                #[trigger] obj.dependencies@[k],
            )
    }

    /// The invariant of the manifold: every section and every segment belongs to a live
    /// object, and every object's lists designate live items that belong to it.
    pub open spec fn wf(&self) -> bool {
        &&& forall|i: int| 0 <= i < self.sections@.len() ==> #[trigger] self.section_owned(i)
        &&& forall|i: int| 0 <= i < self.segments@.len() ==> #[trigger] self.segment_owned(i)
        &&& forall|o: int| 0 <= o < self.objects@.len() ==> #[trigger] self.object_consistent(o)
    }

    /// Whether this manifold is `before` with one more object, made of the file `raw`: the
    /// object `h` comes last, with one segment for each entry of the file's program header
    /// table and one section for each entry of its section header table, in the order of the
    /// tables and after all segments and sections that `before` held. Nothing that `before`
    /// held has changed.
    pub open spec fn ingested(&self, before: &Manifold, h: Handle<Object>, raw: Seq<u8>, path: Seq<u8>) -> bool {
        let hdr = crate::elf::ElfHeader::decode_at(raw, 0);
        let obj = self.objects@[h.index() as int];
        let nobj = before.objects@.len() as int;
        let nseg = before.segments@.len() as int;
        let nsec = before.sections@.len() as int;
        &&& h.index() == nobj
        &&& self.objects@.len() == nobj + 1
        &&& self.objects@.subrange(0, nobj) == before.objects@
        &&& self.segments@.len() == nseg + hdr.e_phnum
        &&& self.segments@.subrange(0, nseg) == before.segments@
        &&& self.sections@.len() == nsec + hdr.e_shnum
        &&& self.sections@.subrange(0, nsec) == before.sections@
        &&& self.shared == before.shared
        &&& self.env == before.env
        &&& obj.has_header_of(raw, path)
        &&& obj.dependencies@.len() == 0
        &&& forall|name: Seq<u8>| obj.shared.lookup(name).is_none()
        &&& obj.segments@.len() == hdr.e_phnum
        &&& obj.sections@.len() == hdr.e_shnum
        &&& forall|k: int|
            0 <= k < hdr.e_phnum ==> {
                &&& (#[trigger] obj.segments@[k]).index() == nseg + k
                &&& self.segments@[nseg + k].describes(program_header(raw, k), h, raw)
            }
        &&& forall|k: int|
            0 <= k < hdr.e_shnum ==> {
                &&& (#[trigger] obj.sections@[k]).index() == nsec + k
                &&& self.sections@[nsec + k].describes(section_header(raw, k), h, obj.mapping)
            }
    }

    /// A manifold without objects, for the execution context `env` and with `shared` as its
    /// shared memory.
    pub fn new(env: Env, shared: ShareMap) -> (m: Self)
        ensures
            m.wf(),
            m.objects@.len() == 0,
            m.sections@.len() == 0,
            m.segments@.len() == 0,
            m.shared == shared,
            m.env == env,
    {
        Self {
            objects: Arena::new(),
            sections: Arena::new(),
            segments: Arena::new(),
            shared,
            env,
        }
    }
}

impl Manifold {
    /// Checks that the file `raw`, whose header `hdr` is, holds its two tables and the content
    /// of its segments in full.
    fn check_tables(raw: &[u8], hdr: &crate::elf::ElfHeader) -> (r: Result<(), FoldError>)
        requires
            header_defect(raw@).is_none(),
            *hdr == crate::elf::ElfHeader::decode_at(raw@, 0),
        ensures
            match ingest_defect(raw@) {
                Some(e) => r == Err::<(), FoldError>(e),
                None => r == Ok::<(), FoldError>(()),
            },
    {
        let len = raw.len();
        if hdr.e_phnum > 0 && hdr.e_phentsize != 56 {
            return Err(FoldError::InvalidEntrySize { wanted: 56, found: hdr.e_phentsize as usize });
        }
        if hdr.e_shnum > 0 && hdr.e_shentsize != 64 {
            return Err(FoldError::InvalidEntrySize { wanted: 64, found: hdr.e_shentsize as usize });
        }
        let ph_len: u64 = (hdr.e_phnum as u64) * 56;
        if hdr.e_phnum > 0 && (hdr.e_phoff > len as u64 || ph_len > len as u64 - hdr.e_phoff) {
            return Err(FoldError::OutOfBounds);
        }
        let sh_len: u64 = (hdr.e_shnum as u64) * 64;
        if hdr.e_shnum > 0 && (hdr.e_shoff > len as u64 || sh_len > len as u64 - hdr.e_shoff) {
            return Err(FoldError::OutOfBounds);
        }
        let mut k: usize = 0;
        while k < hdr.e_phnum as usize
            invariant
                k <= hdr.e_phnum,
                len == raw@.len(),
                header_defect(raw@).is_none(),
                *hdr == crate::elf::ElfHeader::decode_at(raw@, 0),
                !(hdr.e_phnum > 0 && hdr.e_phentsize != 56),
                !(hdr.e_shnum > 0 && hdr.e_shentsize != 64),
                hdr.e_phnum > 0 ==> hdr.e_phoff + hdr.e_phnum * 56 <= raw@.len(),
                hdr.e_shnum > 0 ==> hdr.e_shoff + hdr.e_shnum * 64 <= raw@.len(),
                forall|j: int| 0 <= j < k ==> Segment::fits(#[trigger] program_header(raw@, j), raw@.len()),
            decreases hdr.e_phnum - k,
        {
            let ph = ProgramHeader::parse_at(raw, hdr.e_phoff as usize + k * 56);
            assert(ph == program_header(raw@, k as int));
            if ph.p_offset > len as u64 || ph.p_filesz > len as u64 - ph.p_offset {
                assert(!Segment::fits(program_header(raw@, k as int), raw@.len()));
                return Err(FoldError::OutOfBounds);
            }
            k = k + 1;
        }
        Ok(())
    }

    /// Adds the segment that entry `k` of the program header table of the object `obj_idx`
    /// describes, behind the segments of the manifold.
    fn add_segment(
        &mut self,
        obj_idx: Handle<Object>,
        hdr: &crate::elf::ElfHeader,
        k: usize,
        Ghost(raw): Ghost<Seq<u8>>,
    ) -> (h: Handle<Segment>)
        requires
            old(self).objects.contains(obj_idx),
            old(self).objects@[obj_idx.index() as int].mapping@ == raw,
            *hdr == crate::elf::ElfHeader::decode_at(raw, 0),
            ingest_defect(raw).is_none(),
            k < hdr.e_phnum,
        ensures
            final(self).objects == old(self).objects,
            final(self).sections == old(self).sections,
            final(self).shared == old(self).shared,
            final(self).env == old(self).env,
            h.index() == old(self).segments@.len(),
            final(self).segments@ == old(self).segments@.push(final(self).segments@[h.index() as int]),
            final(self).segments@[h.index() as int].describes(
                program_header(raw, k as int),
                obj_idx,
                raw,
            ),
    {
        let ph = {
            let raw_bytes = self.objects.index(obj_idx).raw();
            let _len = raw_bytes.len();
            ProgramHeader::parse_at(raw_bytes, hdr.e_phoff as usize + k * 56)
        };
        assert(ph == program_header(raw, k as int));
        let segment = Segment::new(&ph, obj_idx, self);
        self.segments.push(segment)
    }

    /// Adds the section that entry `k` of the section header table of the object `obj_idx`
    /// describes, behind the sections of the manifold.
    fn add_section(
        &mut self,
        obj_idx: Handle<Object>,
        hdr: &crate::elf::ElfHeader,
        k: usize,
        Ghost(raw): Ghost<Seq<u8>>,
    ) -> (h: Handle<Section>)
        requires
            old(self).objects.contains(obj_idx),
            old(self).objects@[obj_idx.index() as int].mapping@ == raw,
            *hdr == crate::elf::ElfHeader::decode_at(raw, 0),
            ingest_defect(raw).is_none(),
            k < hdr.e_shnum,
        ensures
            final(self).objects == old(self).objects,
            final(self).segments == old(self).segments,
            final(self).shared == old(self).shared,
            final(self).env == old(self).env,
            h.index() == old(self).sections@.len(),
            final(self).sections@ == old(self).sections@.push(final(self).sections@[h.index() as int]),
            final(self).sections@[h.index() as int].describes(
                section_header(raw, k as int),
                obj_idx,
                old(self).objects@[obj_idx.index() as int].mapping,
            ),
    {
        let sh = {
            let raw_bytes = self.objects.index(obj_idx).raw();
            let _len = raw_bytes.len();
            SectionHeader::parse_at(raw_bytes, hdr.e_shoff as usize + k * 64)
        };
        assert(sh == section_header(raw, k as int));
        let section = Section::new(&sh, obj_idx, self);
        self.sections.push(section)
    }

    /// Adds the ELF file `file` to the manifold, as an object with all its segments and
    /// sections.
    ///
    /// Where the file is refused (see [`ingest_defect`]) the manifold stays as it was. Else the
    /// new object comes after the objects that were there, and its segments and sections after
    /// those that were there, in the order of the file's tables.
    pub fn add_elf_file(&mut self, file: Mapping, path: Vec<u8>) -> (r: Result<Handle<Object>, FoldError>)
        requires
            old(self).wf(),
        ensures
            final(self).wf(),
            match ingest_defect(file@) {
                Some(e) => r == Err::<Handle<Object>, FoldError>(e) && *final(self) == *old(self),
                None => r matches Ok(h) && final(self).ingested(old(self), h, file@, path@),
            },
    {
        let ghost raw = file@;
        let ghost path_view = path@;
        let file = Arc::new(file);
        let obj = match Object::new(file, path) {
            Err(e) => {
                return Err(e);
            },
            Ok(obj) => obj,
        };
        let hdr = obj.header();
        match Self::check_tables(obj.raw(), &hdr) {
            Err(e) => {
                return Err(e);
            },
            Ok(_) => {},
        }
        let ghost mapping = obj.mapping;
        let ghost fresh = obj;
        let nseg = self.segments.len();
        let nsec = self.sections.len();
        let obj_idx = self.objects.push(obj);
        assert(self.objects@.subrange(0, old(self).objects@.len() as int) =~= old(self).objects@);

        let mut segments: Vec<Handle<Segment>> = Vec::new();
        let mut k: usize = 0;
        while k < hdr.e_phnum as usize
            invariant
                k <= hdr.e_phnum,
                hdr == crate::elf::ElfHeader::decode_at(raw, 0),
                ingest_defect(raw).is_none(),
                obj_idx.index() == old(self).objects@.len(),
                self.objects@ == old(self).objects@.push(fresh),
                fresh.mapping == mapping,
                mapping@ == raw,
                self.sections == old(self).sections,
                self.shared == old(self).shared,
                self.env == old(self).env,
                nseg == old(self).segments@.len(),
                self.segments@.len() == nseg + k,
                self.segments@.subrange(0, nseg as int) == old(self).segments@,
                segments@.len() == k,
                forall|j: int|
                    0 <= j < k ==> {
                        &&& (#[trigger] segments@[j]).index() == nseg + j
                        &&& self.segments@[nseg + j].describes(program_header(raw, j), obj_idx, raw)
                    },
            decreases hdr.e_phnum - k,
        {
            let ghost before = self.segments@;
            let ghost listed = segments@;
            let idx = self.add_segment(obj_idx, &hdr, k, Ghost(raw));
            segments.push(idx);
            assert(self.segments@.subrange(0, nseg as int) =~= before.subrange(0, nseg as int));
            assert forall|j: int| 0 <= j < k + 1 implies {
                &&& (#[trigger] segments@[j]).index() == nseg + j
                &&& self.segments@[nseg + j].describes(program_header(raw, j), obj_idx, raw)
            } by {
                if j < k {
                    assert(segments@[j] == listed[j]);
                    assert(self.segments@[nseg + j] == before[nseg + j]);
                } else {
                    assert(segments@[j] == idx);
                }
            }
            k = k + 1;
        }

        let ghost segments_done = self.segments@;
        let mut sections: Vec<Handle<Section>> = Vec::new();
        let mut k: usize = 0;
        while k < hdr.e_shnum as usize
            invariant
                k <= hdr.e_shnum,
                self.segments@ == segments_done,
                hdr == crate::elf::ElfHeader::decode_at(raw, 0),
                ingest_defect(raw).is_none(),
                obj_idx.index() == old(self).objects@.len(),
                self.objects@ == old(self).objects@.push(fresh),
                fresh.mapping == mapping,
                mapping@ == raw,
                self.shared == old(self).shared,
                self.env == old(self).env,
                nsec == old(self).sections@.len(),
                self.sections@.len() == nsec + k,
                self.sections@.subrange(0, nsec as int) == old(self).sections@,
                sections@.len() == k,
                forall|j: int|
                    0 <= j < k ==> {
                        &&& (#[trigger] sections@[j]).index() == nsec + j
                        &&& self.sections@[nsec + j].describes(section_header(raw, j), obj_idx, mapping)
                    },
            decreases hdr.e_shnum - k,
        {
            let ghost before = self.sections@;
            let ghost listed = sections@;
            let idx = self.add_section(obj_idx, &hdr, k, Ghost(raw));
            sections.push(idx);
            assert(self.sections@.subrange(0, nsec as int) =~= before.subrange(0, nsec as int));
            assert forall|j: int| 0 <= j < k + 1 implies {
                &&& (#[trigger] sections@[j]).index() == nsec + j
                &&& self.sections@[nsec + j].describes(section_header(raw, j), obj_idx, mapping)
            } by {
                if j < k {
                    assert(sections@[j] == listed[j]);
                    assert(self.sections@[nsec + j] == before[nsec + j]);
                } else {
                    assert(sections@[j] == idx);
                }
            }
            k = k + 1;
        }

        // Initialize segment and section indexes.
        let obj = self.objects.index_mut(obj_idx);
        obj.segments = segments;
        obj.sections = sections;
        proof {
            let nobj = old(self).objects@.len() as int;
            let placed = self.objects@[nobj];
            assert(self.objects@ == old(self).objects@.push(fresh).update(nobj, placed));
            assert(placed.mapping == mapping);
            assert(placed.segments == segments);
            assert(placed.sections == sections);
            assert(placed.has_header_of(raw, path_view));
            assert(self.objects@.subrange(0, nobj) =~= old(self).objects@);
            assert forall|i: int| 0 <= i < self.sections@.len() implies #[trigger] self.section_owned(i) by {
                if i < nsec {
                    assert(self.sections@[i] == old(self).sections@[i]);
                    assert(old(self).section_owned(i));
                } else {
                    let j = i - nsec;
                    assert(sections@[j].index() == nsec + j);
                }
            }
            assert forall|i: int| 0 <= i < self.segments@.len() implies #[trigger] self.segment_owned(i) by {
                if i < nseg {
                    assert(self.segments@[i] == old(self).segments@[i]);
                    assert(old(self).segment_owned(i));
                } else {
                    let j = i - nseg;
                    assert(segments@[j].index() == nseg + j);
                }
            }
            assert forall|o: int| 0 <= o < self.objects@.len() implies #[trigger] self.object_consistent(o) by {
                if o < nobj {
                    assert(self.objects@[o] == old(self).objects@[o]);
                    assert(old(self).object_consistent(o));
                    let obj = self.objects@[o];
                    assert forall|k: int| 0 <= k < obj.sections@.len() implies {
                        let h = #[trigger] obj.sections@[k];
                        &&& self.sections.contains(h)
                        &&& self.sections@[h.index() as int].obj.index() == o
                        &&& self.sections@[h.index() as int].mapping == obj.mapping
                    } by {
                        let h = obj.sections@[k];
                        assert(old(self).sections.contains(h));
                        assert(self.sections@[h.index() as int] == old(self).sections@[h.index() as int]);
                    }
                    assert forall|k: int| 0 <= k < obj.segments@.len() implies {
                        let h = #[trigger] obj.segments@[k];
                        &&& self.segments.contains(h)
                        &&& self.segments@[h.index() as int].obj.index() == o
                    } by {
                        let h = obj.segments@[k];
                        assert(old(self).segments.contains(h));
                        assert(self.segments@[h.index() as int] == old(self).segments@[h.index() as int]);
                    }
                    assert forall|k: int| 0 <= k < obj.dependencies@.len() implies self.objects.contains(
                        #[trigger] obj.dependencies@[k],
                    ) by {
                        assert(old(self).objects.contains(obj.dependencies@[k]));
                    }
                } else {
                    let obj = self.objects@[o];
                    assert forall|k: int| 0 <= k < obj.sections@.len() implies {
                        let h = #[trigger] obj.sections@[k];
                        &&& self.sections.contains(h)
                        &&& self.sections@[h.index() as int].obj.index() == o
                        &&& self.sections@[h.index() as int].mapping == obj.mapping
                    } by {
                        assert(sections@[k].index() == nsec + k);
                    }
                    assert forall|k: int| 0 <= k < obj.segments@.len() implies {
                        let h = #[trigger] obj.segments@[k];
                        &&& self.segments.contains(h)
                        &&& self.segments@[h.index() as int].obj.index() == o
                    } by {
                        assert(segments@[k].index() == nseg + k);
                    }
                }
            }
            lemma_is_ingested(self, old(self), obj_idx, raw, path_view);
        }
        Ok(obj_idx)
    }
}

// ————————————————————————————— Symbol lookup —————————————————————————————— //
/// The search of the dynamic symbol tables of the objects from number `from` on, in load
/// order, for a defined entry of the name `name` and of binding `binding`: what the first
/// object that has one gives.
pub open spec fn scan_bound(manifold: &Manifold, name: Seq<u8>, binding: u8, from: int) -> Lookup
    decreases manifold.objects@.len() - from,
{
    if from < 0 || from >= manifold.objects@.len() {
        Lookup::Missing
    } else {
        match spec_find_bound(&manifold.objects@[from], manifold, name, SHT_DYNSYM, binding) {
            Lookup::Missing => scan_bound(manifold, name, binding, from + 1),
            found => found,
        }
    }
}

/// The definition of `name` as the object `local` sees it.
///
/// A defined entry of local binding in the symbol tables of `local` itself comes first. Else
/// the dynamic symbol tables of all objects are searched in load order: the first defined
/// entry of global binding wins; failing that, the first of weak binding. Undefined entries
/// and entries of another name or binding are passed over. The entry that wins ends the
/// lookup with an error where the section that holds its symbol cannot be had.
pub open spec fn resolve(manifold: &Manifold, name: Seq<u8>, local: Handle<Object>) -> Lookup {
    match spec_find_bound(
        &manifold.objects@[local.index() as int],
        manifold,
        name,
        SHT_SYMTAB,
        STB_LOCAL,
    ) {
        Lookup::Missing => match scan_bound(manifold, name, STB_GLOBAL, 0) {
            Lookup::Missing => scan_bound(manifold, name, STB_WEAK, 0),
            found => found,
        },
        found => found,
    }
}

impl Manifold {
    /// The object that `handle` designates, which must be one of the manifold.
    pub fn object(&self, handle: Handle<Object>) -> (o: &Object)
        requires
            self.objects.contains(handle),
        ensures
            *o == self.objects@[handle.index() as int],
    {
        self.objects.index(handle)
    }

    /// The segment that `handle` designates, which must be one of the manifold.
    pub fn segment(&self, handle: Handle<Segment>) -> (s: &Segment)
        requires
            self.segments.contains(handle),
        ensures
            *s == self.segments@[handle.index() as int],
    {
        self.segments.index(handle)
    }

    /// The section that `handle` designates, which must be one of the manifold.
    pub fn section(&self, handle: Handle<Section>) -> (s: &Section)
        requires
            self.sections.contains(handle),
        ensures
            *s == self.sections@[handle.index() as int],
    {
        self.sections.index(handle)
    }

    /// The directories in which libraries are looked for, as the shared memory of the manifold
    /// knows them.
    pub open spec fn spec_search_paths(&self) -> Seq<Vec<u8>> {
        match self.shared.spec_get(crate::sysv::collector::spec_search_paths_key()) {
            Some(paths) => paths@,
            None => Seq::empty(),
        }
    }

    /// Adds `paths` after the directories in which libraries are looked for. Nothing else
    /// changes.
    pub fn add_search_paths(&mut self, paths: Vec<Vec<u8>>)
        ensures
            final(self).spec_search_paths() == old(self).spec_search_paths() + paths@,
            final(self).objects == old(self).objects,
            final(self).sections == old(self).sections,
            final(self).segments == old(self).segments,
            final(self).env == old(self).env,
            forall|name: Seq<u8>|
                name != crate::sysv::collector::spec_search_paths_key().name()
                    ==> final(self).shared.lookup(name) == old(self).shared.lookup(name),
    {
        let mut more = paths;
        match self.shared.get_mut(crate::sysv::collector::search_paths_key()) {
            Some(list) => {
                list.append(&mut more);
                proof {
                    Vec::<Vec<u8>>::lemma_wrap_unwrap(*final(list), (*final(list)).wrap());
                }
            },
            None => {
                assert(Seq::<Vec<u8>>::empty() + more@ =~= more@);
                self.shared.insert(crate::sysv::collector::search_paths_key(), more);
            },
        }
    }

    /// The first defined entry of the name `name` and of binding `binding` in the dynamic
    /// symbol tables of the objects, in load order.
    pub fn scan<'a>(&'a self, name: &[u8], binding: u8) -> (r: Result<Option<(&'a Section, Sym)>, FoldError>)
        requires
            self.wf(),
        ensures
            finds(r, scan_bound(self, name@, binding, 0)),
            r matches Ok(Some((c, _))) ==> self.objects.contains(c.obj),
    {
        let mut it = self.objects.enumerate();
        loop
            invariant
                self.wf(),
                it.arena() == &self.objects,
                it.position() <= self.objects@.len(),
                scan_bound(self, name@, binding, 0) == scan_bound(
                    self,
                    name@,
                    binding,
                    it.position() as int,
                ),
            decreases self.objects@.len() - it.position(),
        {
            let ghost at = it.position() as int;
            match it.next() {
                None => {
                    return Ok(None);
                },
                Some((_, obj)) => {
                    assert(*obj == self.objects@[at]);
                    assert(self.object_consistent(at));
                    match obj.find_bound(name, self, SHT_DYNSYM, binding) {
                        Ok(None) => {},
                        Ok(Some(found)) => {
                            return Ok(Some(found));
                        },
                        Err(e) => {
                            return Err(e);
                        },
                    }
                },
            }
        }
    }

    /// Find the given symbol across the loaded objects, as the object `local` sees it. Symbols
    /// that no section defines are never found.
    ///
    /// Applies the following priority:
    /// - A symbol of local binding in a symbol table (`SHT_SYMTAB`) of `local`.
    /// - A symbol of global binding in a dynamic symbol table (`SHT_DYNSYM`) of any object.
    ///   Objects are searched in the order in which they were loaded.
    /// - A symbol of weak binding, searched in the same way.
    ///
    /// Where none of these is there, the lookup fails with `SymbolNotFound` and the name.
    pub fn find_symbol<'a>(&'a self, name: &[u8], local: Handle<Object>) -> (r: Result<
        (&'a Section, Sym),
        FoldError,
    >)
        requires
            self.wf(),
            self.objects.contains(local),
        ensures
            reports(r, resolve(self, name@, local), name@),
            r matches Ok((c, _)) ==> self.objects.contains(c.obj),
    {
        assert(self.object_consistent(local.index() as int));
        match self.objects.index(local).find_bound(name, self, SHT_SYMTAB, STB_LOCAL)? {
            Some(found) => {
                return Ok(found);
            },
            None => {},
        }
        match self.scan(name, STB_GLOBAL)? {
            Some(found) => {
                return Ok(found);
            },
            None => {},
        }
        match self.scan(name, STB_WEAK)? {
            Some(found) => Ok(found),
            None => Err(FoldError::SymbolNotFound(crate::bytes::to_vec(name))),
        }
    }
}

/// What `ingested` asks for, piece by piece.
proof fn lemma_is_ingested(after: &Manifold, before: &Manifold, h: Handle<Object>, raw: Seq<u8>, path: Seq<u8>)
    requires
        h.index() == before.objects@.len(),
        after.objects@.len() == before.objects@.len() + 1,
        after.objects@.subrange(0, before.objects@.len() as int) == before.objects@,
        after.segments@.len() == before.segments@.len() + crate::elf::ElfHeader::decode_at(
            raw,
            0,
        ).e_phnum,
        after.segments@.subrange(0, before.segments@.len() as int) == before.segments@,
        after.sections@.len() == before.sections@.len() + crate::elf::ElfHeader::decode_at(
            raw,
            0,
        ).e_shnum,
        after.sections@.subrange(0, before.sections@.len() as int) == before.sections@,
        after.shared == before.shared,
        after.env == before.env,
        after.objects@[h.index() as int].has_header_of(raw, path),
        after.objects@[h.index() as int].dependencies@.len() == 0,
        forall|name: Seq<u8>| after.objects@[h.index() as int].shared.lookup(name).is_none(),
        after.objects@[h.index() as int].segments@.len() == crate::elf::ElfHeader::decode_at(
            raw,
            0,
        ).e_phnum,
        after.objects@[h.index() as int].sections@.len() == crate::elf::ElfHeader::decode_at(
            raw,
            0,
        ).e_shnum,
        forall|k: int|
            0 <= k < crate::elf::ElfHeader::decode_at(raw, 0).e_phnum ==> {
                &&& (#[trigger] after.objects@[h.index() as int].segments@[k]).index()
                    == before.segments@.len() + k
                &&& after.segments@[before.segments@.len() + k].describes(
                    program_header(raw, k),
                    h,
                    raw,
                )
            },
        forall|k: int|
            0 <= k < crate::elf::ElfHeader::decode_at(raw, 0).e_shnum ==> {
                &&& (#[trigger] after.objects@[h.index() as int].sections@[k]).index()
                    == before.sections@.len() + k
                &&& after.sections@[before.sections@.len() + k].describes(
                    section_header(raw, k),
                    h,
                    after.objects@[h.index() as int].mapping,
                )
            },
    ensures
        after.ingested(before, h, raw, path),
{
    let hdr = crate::elf::ElfHeader::decode_at(raw, 0);
    let obj = after.objects@[h.index() as int];
    let nseg = before.segments@.len() as int;
    let nsec = before.sections@.len() as int;
    assert forall|k: int| 0 <= k < hdr.e_phnum implies {
        &&& (#[trigger] obj.segments@[k]).index() == nseg + k
        &&& after.segments@[nseg + k].describes(program_header(raw, k), h, raw)
    } by {
        assert(after.objects@[h.index() as int].segments@[k].index() == before.segments@.len() + k);
    }
    assert forall|k: int| 0 <= k < hdr.e_shnum implies {
        &&& (#[trigger] obj.sections@[k]).index() == nsec + k
        &&& after.sections@[nsec + k].describes(section_header(raw, k), h, obj.mapping)
    } by {
        assert(after.objects@[h.index() as int].sections@[k].index() == before.sections@.len() + k);
    }
}

// —————————————————————————————————— Laws —————————————————————————————————— //
/// Every section and every segment of a well-formed manifold belongs to an object of the
/// manifold.
pub proof fn lemma_items_have_owners(manifold: Manifold, section: Handle<Section>, segment: Handle<Segment>)
    requires
        manifold.wf(),
    ensures
        manifold.sections.contains(section) ==> manifold.objects.contains(
            manifold.sections@[section.index() as int].obj,
        ),
        manifold.segments.contains(segment) ==> manifold.objects.contains(
            manifold.segments@[segment.index() as int].obj,
        ),
{
    if manifold.sections.contains(section) {
        assert(manifold.section_owned(section.index() as int));
    }
    if manifold.segments.contains(segment) {
        assert(manifold.segment_owned(segment.index() as int));
    }
}

/// Whether a manifold is well-formed does not depend on its shared memory and its execution
/// context.
pub proof fn lemma_wf_ignores_shared(a: Manifold, b: Manifold)
    requires
        a.wf(),
        a.objects == b.objects,
        a.sections == b.sections,
        a.segments == b.segments,
    ensures
        b.wf(),
{
    assert forall|i: int| 0 <= i < b.sections@.len() implies #[trigger] b.section_owned(i) by {
        assert(a.section_owned(i));
    }
    assert forall|i: int| 0 <= i < b.segments@.len() implies #[trigger] b.segment_owned(i) by {
        assert(a.segment_owned(i));
    }
    assert forall|o: int| 0 <= o < b.objects@.len() implies #[trigger] b.object_consistent(o) by {
        assert(a.object_consistent(o));
    }
}

/// Whether the object number `i` of `manifold` has a defined entry of the name `name` and of
/// binding `binding` in a symbol table of tag `tag`.
pub open spec fn has_definition(manifold: &Manifold, i: int, name: Seq<u8>, tag: u32, binding: u8) -> bool {
    !(spec_find_bound(&manifold.objects@[i], manifold, name, tag, binding) is Missing)
}

/// The search of an object's symbol tables gives nothing exactly where no table of the tag,
/// from section number `from` on, holds a defined entry of the name and the binding.
pub proof fn lemma_search_bound_missing(
    obj: &Object,
    manifold: &Manifold,
    symbol: Seq<u8>,
    tag: u32,
    binding: u8,
    from: int,
)
    requires
        0 <= from,
    ensures
        search_bound(obj, manifold, symbol, tag, binding, from) is Missing <==> forall|
            s: int,
            k: int,
        |
            from <= s ==> !#[trigger] table_defines(obj, manifold, symbol, tag, binding, s, k),
    decreases obj.sections@.len() - from,
{
    if from < obj.sections@.len() {
        lemma_search_bound_missing(obj, manifold, symbol, tag, binding, from + 1);
        let table = table_at(obj, manifold, from);
        let entries = table.entries::<Sym>();
        let wanted = defines(table, manifold, symbol, binding);
        crate::search::lemma_first_where(entries, wanted);
        crate::search::lemma_first_from(entries, wanted, 0);
        if table.tag == tag && crate::search::first_where(entries, wanted) is Some {
            let k = crate::search::first_from(entries, wanted, 0);
            assert(table_defines(obj, manifold, symbol, tag, binding, from, k));
        } else if search_bound(obj, manifold, symbol, tag, binding, from) is Missing {
            assert forall|s: int, k: int| from <= s implies !#[trigger] table_defines(
                obj,
                manifold,
                symbol,
                tag,
                binding,
                s,
                k,
            ) by {
                if s == from && table_defines(obj, manifold, symbol, tag, binding, s, k) {
                    assert(wanted(entries[k]));
                }
            }
        }
    }
}

/// An object has a definition exactly where one of its symbol tables of the tag holds a defined
/// entry of the name and the binding.
pub proof fn lemma_has_definition(manifold: &Manifold, i: int, name: Seq<u8>, tag: u32, binding: u8)
    ensures
        has_definition(manifold, i, name, tag, binding) <==> exists|s: int, k: int|
            table_defines(&manifold.objects@[i], manifold, name, tag, binding, s, k),
{
    lemma_search_bound_missing(&manifold.objects@[i], manifold, name, tag, binding, 0);
    if exists|s: int, k: int|
        table_defines(&manifold.objects@[i], manifold, name, tag, binding, s, k) {
        let (s, k) = choose|s: int, k: int|
            table_defines(&manifold.objects@[i], manifold, name, tag, binding, s, k);
        assert(0 <= s);
    }
}

/// The scan of the objects gives nothing exactly where no object from number `from` on has a
/// definition.
pub proof fn lemma_scan_bound_missing(manifold: &Manifold, name: Seq<u8>, binding: u8, from: int)
    requires
        0 <= from,
    ensures
        scan_bound(manifold, name, binding, from) is Missing <==> forall|i: int|
            from <= i < manifold.objects@.len() ==> !#[trigger] has_definition(
                manifold,
                i,
                name,
                SHT_DYNSYM,
                binding,
            ),
    decreases manifold.objects@.len() - from,
{
    if from < manifold.objects@.len() {
        lemma_scan_bound_missing(manifold, name, binding, from + 1);
        if has_definition(manifold, from, name, SHT_DYNSYM, binding) {
        } else if scan_bound(manifold, name, binding, from) is Missing {
            assert forall|i: int| from <= i < manifold.objects@.len() implies !#[trigger] has_definition(
                manifold,
                i,
                name,
                SHT_DYNSYM,
                binding,
            ) by {
                if i > from {
                    assert(from + 1 <= i);
                }
            }
        } else {
            assert(!(scan_bound(manifold, name, binding, from + 1) is Missing));
        }
    }
}

/// The scan gives what the first object that has a definition gives.
pub proof fn lemma_scan_bound_first(manifold: &Manifold, name: Seq<u8>, binding: u8, from: int, j: int)
    requires
        0 <= from <= j < manifold.objects@.len(),
        has_definition(manifold, j, name, SHT_DYNSYM, binding),
        forall|i: int| from <= i < j ==> !#[trigger] has_definition(manifold, i, name, SHT_DYNSYM, binding),
    ensures
        scan_bound(manifold, name, binding, from) == spec_find_bound(
            &manifold.objects@[j],
            manifold,
            name,
            SHT_DYNSYM,
            binding,
        ),
    decreases j - from,
{
    if from < j {
        assert(!has_definition(manifold, from, name, SHT_DYNSYM, binding));
        lemma_scan_bound_first(manifold, name, binding, from + 1, j);
    }
}

/// A lookup fails with `SymbolNotFound` exactly where the looking object has no definition of
/// local binding in its symbol tables, and no object has a definition of global or of weak
/// binding in its dynamic symbol tables.
pub proof fn lemma_resolve_missing(manifold: &Manifold, name: Seq<u8>, local: Handle<Object>)
    ensures
        resolve(manifold, name, local) is Missing <==> {
            &&& !has_definition(manifold, local.index() as int, name, SHT_SYMTAB, STB_LOCAL)
            &&& forall|i: int|
                0 <= i < manifold.objects@.len() ==> !#[trigger] has_definition(
                    manifold,
                    i,
                    name,
                    SHT_DYNSYM,
                    STB_GLOBAL,
                )
            &&& forall|i: int|
                0 <= i < manifold.objects@.len() ==> !#[trigger] has_definition(
                    manifold,
                    i,
                    name,
                    SHT_DYNSYM,
                    STB_WEAK,
                )
        },
{
    lemma_scan_bound_missing(manifold, name, STB_GLOBAL, 0);
    lemma_scan_bound_missing(manifold, name, STB_WEAK, 0);
}

/// A definition of local binding in the looking object's own symbol tables beats every other
/// definition.
pub proof fn lemma_resolve_prefers_local(manifold: &Manifold, name: Seq<u8>, local: Handle<Object>)
    requires
        has_definition(manifold, local.index() as int, name, SHT_SYMTAB, STB_LOCAL),
    ensures
        resolve(manifold, name, local) == spec_find_bound(
            &manifold.objects@[local.index() as int],
            manifold,
            name,
            SHT_SYMTAB,
            STB_LOCAL,
        ),
{
}

/// A definition of global binding beats every definition of weak binding, whatever the load
/// order: unless the looking object defines the name with local binding itself, the lookup
/// gives the definition of the first object in load order that defines the name with global
/// binding.
pub proof fn lemma_resolve_prefers_global(manifold: &Manifold, name: Seq<u8>, local: Handle<Object>, j: int)
    requires
        0 <= j < manifold.objects@.len(),
        !has_definition(manifold, local.index() as int, name, SHT_SYMTAB, STB_LOCAL),
        has_definition(manifold, j, name, SHT_DYNSYM, STB_GLOBAL),
        forall|i: int| 0 <= i < j ==> !#[trigger] has_definition(manifold, i, name, SHT_DYNSYM, STB_GLOBAL),
    ensures
        resolve(manifold, name, local) == spec_find_bound(
            &manifold.objects@[j],
            manifold,
            name,
            SHT_DYNSYM,
            STB_GLOBAL,
        ),
{
    lemma_scan_bound_first(manifold, name, STB_GLOBAL, 0, j);
}

/// Where no object defines the name with global binding, and the looking object does not
/// define it with local binding, the lookup gives the definition of the first object in load
/// order that defines the name with weak binding.
pub proof fn lemma_resolve_falls_back_to_weak(manifold: &Manifold, name: Seq<u8>, local: Handle<Object>, j: int)
    requires
        0 <= j < manifold.objects@.len(),
        !has_definition(manifold, local.index() as int, name, SHT_SYMTAB, STB_LOCAL),
        forall|i: int|
            0 <= i < manifold.objects@.len() ==> !#[trigger] has_definition(
                manifold,
                i,
                name,
                SHT_DYNSYM,
                STB_GLOBAL,
            ),
        has_definition(manifold, j, name, SHT_DYNSYM, STB_WEAK),
        forall|i: int| 0 <= i < j ==> !#[trigger] has_definition(manifold, i, name, SHT_DYNSYM, STB_WEAK),
    ensures
        resolve(manifold, name, local) == spec_find_bound(
            &manifold.objects@[j],
            manifold,
            name,
            SHT_DYNSYM,
            STB_WEAK,
        ),
{
    lemma_scan_bound_missing(manifold, name, STB_GLOBAL, 0);
    lemma_scan_bound_first(manifold, name, STB_WEAK, 0, j);
}

/// Whether `sym` is a defined entry of the name `name` and of binding `binding` in a symbol
/// table of tag `tag` of the object number `i`.
pub open spec fn defined_in(manifold: &Manifold, i: int, name: Seq<u8>, tag: u32, binding: u8, sym: Sym) -> bool {
    exists|s: int, k: int|
        {
            &&& #[trigger] table_defines(&manifold.objects@[i], manifold, name, tag, binding, s, k)
            &&& table_at(&manifold.objects@[i], manifold, s).entries::<Sym>()[k] == sym
        }
}

/// What the search of an object's symbol tables finds is a defined entry of the name and the
/// binding asked for, in one of the object's tables of the tag.
pub proof fn lemma_search_bound_gives_defined(
    manifold: &Manifold,
    i: int,
    name: Seq<u8>,
    tag: u32,
    binding: u8,
    from: int,
)
    ensures
        search_bound(&manifold.objects@[i], manifold, name, tag, binding, from) matches Lookup::Found(
            _,
            sym,
        ) ==> {
            &&& sym.st_shndx != SHN_UNDEF
            &&& spec_sym_bindings(sym) == binding
            &&& defined_in(manifold, i, name, tag, binding, sym)
        },
    decreases manifold.objects@[i].sections@.len() - from,
{
    let obj = &manifold.objects@[i];
    if 0 <= from < obj.sections@.len() {
        lemma_search_bound_gives_defined(manifold, i, name, tag, binding, from + 1);
        let table = table_at(obj, manifold, from);
        let entries = table.entries::<Sym>();
        let wanted = defines(table, manifold, name, binding);
        crate::search::lemma_first_where(entries, wanted);
        crate::search::lemma_first_from(entries, wanted, 0);
        if table.tag == tag && crate::search::first_where(entries, wanted) is Some {
            let k = crate::search::first_from(entries, wanted, 0);
            assert(table_defines(obj, manifold, name, tag, binding, from, k));
        }
    }
}

/// What the scan of the objects finds is a defined entry of the name and the binding asked
/// for, in a dynamic symbol table of an object of the manifold.
pub proof fn lemma_scan_bound_gives_defined(manifold: &Manifold, name: Seq<u8>, binding: u8, from: int)
    requires
        0 <= from,
    ensures
        scan_bound(manifold, name, binding, from) matches Lookup::Found(_, sym) ==> {
            &&& sym.st_shndx != SHN_UNDEF
            &&& spec_sym_bindings(sym) == binding
            &&& exists|i: int|
                0 <= i < manifold.objects@.len() && #[trigger] defined_in(
                    manifold,
                    i,
                    name,
                    SHT_DYNSYM,
                    binding,
                    sym,
                )
        },
    decreases manifold.objects@.len() - from,
{
    if from < manifold.objects@.len() {
        lemma_search_bound_gives_defined(manifold, from, name, SHT_DYNSYM, binding, 0);
        lemma_scan_bound_gives_defined(manifold, name, binding, from + 1);
    }
}

/// A symbol that no section defines is never the result of a lookup: what a lookup gives is
/// a defined entry of the name looked for, bound locally in a symbol table of the looking
/// object, or bound globally or weakly in a dynamic symbol table of an object of the
/// manifold.
pub proof fn lemma_resolve_gives_defined(manifold: &Manifold, name: Seq<u8>, local: Handle<Object>)
    ensures
        resolve(manifold, name, local) matches Lookup::Found(_, sym) ==> {
            &&& sym.st_shndx != SHN_UNDEF
            &&& {
                ||| defined_in(manifold, local.index() as int, name, SHT_SYMTAB, STB_LOCAL, sym)
                ||| exists|i: int|
                    0 <= i < manifold.objects@.len() && #[trigger] defined_in(
                        manifold,
                        i,
                        name,
                        SHT_DYNSYM,
                        STB_GLOBAL,
                        sym,
                    )
                ||| exists|i: int|
                    0 <= i < manifold.objects@.len() && #[trigger] defined_in(
                        manifold,
                        i,
                        name,
                        SHT_DYNSYM,
                        STB_WEAK,
                        sym,
                    )
            }
        },
{
    lemma_search_bound_gives_defined(manifold, local.index() as int, name, SHT_SYMTAB, STB_LOCAL, 0);
    lemma_scan_bound_gives_defined(manifold, name, STB_GLOBAL, 0);
    lemma_scan_bound_gives_defined(manifold, name, STB_WEAK, 0);
}

} // verus!
