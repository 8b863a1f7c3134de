use crate::arena::Handle;
use crate::elf::{cstr_at, items_from, spec_cstr_at, ElfItem, ElfItemIterator, SectionHeader, Sym, SHT_DYNSYM, SHT_STRTAB, SHT_SYMTAB};
use crate::error::FoldError;
use crate::file::Mapping;
use crate::manifold::Manifold;
use crate::object::Object;
use std::sync::Arc;
use vstd::prelude::*;

verus! {

/// Another owner of the file image that `m` owns.
///
/// Trusted: this is `Arc::clone` of std, which makes a second pointer to the same allocation;
/// the value behind the two pointers is one and the same.
#[verifier::external_body]
pub(crate) fn share_mapping(m: &Arc<Mapping>) -> (r: Arc<Mapping>)
    ensures
        r == *m,
{
    Arc::clone(m)
}

/// Representation of an ELF section in the manifold: one entry of the section header table.
///
/// All the attributes of the section can be read directly. The `as_*` methods give views of
/// the section as a table of a given kind, after a check of the section's tag.
#[derive(Debug)]
pub struct Section {
    /// The file that holds this section.
    pub mapping: Arc<Mapping>,
    /// The object containing this section.
    pub obj: Handle<Object>,
    /// Offset to the name of the section in the object's .shstrtab section.
    pub name: u32,
    /// The type of the section (sh_type).
    pub tag: u32,
    /// Section flags.
    pub flags: usize,
    /// Virtual address once loaded, for loadable sections.
    pub addr: usize,
    /// Offset of the section in the file.
    pub offset: usize,
    /// Size of the section in the file.
    pub size: usize,
    /// Required alignment.
    pub alig: usize,
    /// Index in the object's sections of an associated section.
    pub link: u32,
    /// Extra information about the section.
    pub info: u32,
    /// Size of the elements contained in the section, if applicable.
    pub entity_size: usize,
}

impl Section {
    /// Whether this section is what `header` describes in the file `file` of the object `obj`.
    pub open spec fn describes(&self, header: SectionHeader, obj: Handle<Object>, file: Arc<Mapping>) -> bool {
        &&& self.mapping == file
        &&& self.obj == obj
        &&& self.name == header.sh_name
        &&& self.tag == header.sh_type
        &&& self.flags == header.sh_flags as usize
        &&& self.addr == header.sh_addr as usize
        &&& self.offset == header.sh_offset as usize
        &&& self.size == header.sh_size as usize
        &&& self.alig == header.sh_addralign as usize
        &&& self.link == header.sh_link
        &&& self.info == header.sh_info
        &&& self.entity_size == header.sh_entsize as usize
    }

    /// Offset in the file at which the section's content ends, or the largest machine word
    /// where the sum exceeds it.
    pub open spec fn end(&self) -> nat {
        if self.offset + self.size <= usize::MAX {
            (self.offset + self.size) as nat
        } else {
            usize::MAX as nat
        }
    }

    /// The records of type `T` that the section holds, in order. A section that announces
    /// entries of another size than that of `T` holds none.
    pub open spec fn entries<T: ElfItem>(&self) -> Seq<T> {
        if self.entity_size == T::spec_size() {
            items_from::<T>(self.mapping@, self.offset as nat, self.end(), T::spec_size())
        } else {
            Seq::empty()
        }
    }

    /// The string that starts `index` bytes into the section's content.
    pub open spec fn string_at(&self, index: nat) -> Result<Seq<u8>, FoldError> {
        if self.offset + index <= usize::MAX {
            spec_cstr_at(self.mapping@, self.offset + index)
        } else {
            Err(FoldError::OutOfBounds)
        }
    }

    /// The section that `header` describes in the object `obj_idx`.
    pub fn new(header: &SectionHeader, obj_idx: Handle<Object>, manifold: &Manifold) -> (s: Self)
        requires
            manifold.objects.contains(obj_idx),
        ensures
            s.describes(*header, obj_idx, manifold.objects@[obj_idx.index() as int].mapping),
    {
        let obj = manifold.objects.index(obj_idx);
        Self {
            mapping: share_mapping(&obj.mapping),
            obj: obj_idx,
            name: header.sh_name,
            tag: header.sh_type,
            flags: header.sh_flags as usize,
            addr: header.sh_addr as usize,
            offset: header.sh_offset as usize,
            size: header.sh_size as usize,
            alig: header.sh_addralign as usize,
            link: header.sh_link,
            info: header.sh_info,
            entity_size: header.sh_entsize as usize,
        }
    }

    /// Creates a wrapper around this section to use it as a string table section.
    pub fn as_string_table(&self) -> (r: Result<StringTableSection<'_>, FoldError>)
        ensures
            self.tag == SHT_STRTAB ==> (r matches Ok(t) && t.section == self),
            self.tag != SHT_STRTAB ==> r == Err::<StringTableSection<'_>, FoldError>(
                FoldError::InvalidSectionCast { expected: SHT_STRTAB, actual: self.tag },
            ),
    {
        if self.tag == SHT_STRTAB {
            Ok(StringTableSection { section: self })
        } else {
            Err(FoldError::InvalidSectionCast { expected: SHT_STRTAB, actual: self.tag })
        }
    }

    /// Creates a wrapper around this section to use it as a dynamic symbol table section.
    pub fn as_dynamic_symbol_table(&self) -> (r: Result<SymbolTableSection<'_>, FoldError>)
        ensures
            self.tag == SHT_DYNSYM ==> (r matches Ok(t) && t.section == self),
            self.tag != SHT_DYNSYM ==> r == Err::<SymbolTableSection<'_>, FoldError>(
                FoldError::InvalidSectionCast { expected: SHT_DYNSYM, actual: self.tag },
            ),
    {
        if self.tag == SHT_DYNSYM {
            Ok(SymbolTableSection { section: self })
        } else {
            Err(FoldError::InvalidSectionCast { expected: SHT_DYNSYM, actual: self.tag })
        }
    }

    /// Creates a wrapper around this section to use it as a symbol table section.
    pub fn as_symbol_table(&self) -> (r: Result<SymbolTableSection<'_>, FoldError>)
        ensures
            self.tag == SHT_SYMTAB ==> (r matches Ok(t) && t.section == self),
            self.tag != SHT_SYMTAB ==> r == Err::<SymbolTableSection<'_>, FoldError>(
                FoldError::InvalidSectionCast { expected: SHT_SYMTAB, actual: self.tag },
            ),
    {
        if self.tag == SHT_SYMTAB {
            Ok(SymbolTableSection { section: self })
        } else {
            Err(FoldError::InvalidSectionCast { expected: SHT_SYMTAB, actual: self.tag })
        }
    }

    /// The section that `link` designates among the sections of the owning object.
    ///
    /// Fails with `OutOfBounds` where the object has no section of that index, and with
    /// `MissingLinkedSection` where the manifold has no section for it.
    pub open spec fn spec_linked(&self, manifold: &Manifold) -> Result<Section, FoldError> {
        let obj = manifold.objects@[self.obj.index() as int];
        if self.link as int >= obj.sections@.len() {
            Err(FoldError::OutOfBounds)
        } else {
            match manifold.sections.spec_get(obj.sections@[self.link as int]) {
                Some(s) => Ok(s),
                None => Err(FoldError::MissingLinkedSection),
            }
        }
    }

    /// The section whose index is stored in `link`, fetched from the manifold.
    pub fn linked<'a>(&self, manifold: &'a Manifold) -> (r: Result<&'a Section, FoldError>)
        requires
            manifold.objects.contains(self.obj),
        ensures
            r matches Ok(s) ==> self.spec_linked(manifold) == Ok::<Section, FoldError>(*s),
            r matches Err(e) ==> self.spec_linked(manifold) == Err::<Section, FoldError>(e),
    {
        let obj = manifold.objects.index(self.obj);
        let link = self.link as usize;
        if link >= obj.sections.len() {
            return Err(FoldError::OutOfBounds);
        }
        match manifold.sections.get(obj.sections[link]) {
            Some(s) => Ok(s),
            None => Err(FoldError::MissingLinkedSection),
        }
    }

    /// The name of this section: the string at `name` in the object's section name table.
    pub open spec fn spec_display_name(&self, manifold: &Manifold) -> Result<Seq<u8>, FoldError> {
        let obj = manifold.objects@[self.obj.index() as int];
        if obj.e_shstrndx as int >= obj.sections@.len() {
            Err(FoldError::OutOfBounds)
        } else {
            match manifold.sections.spec_get(obj.sections@[obj.e_shstrndx as int]) {
                None => Err(FoldError::MissingLinkedSection),
                Some(names) => if names.tag != SHT_STRTAB {
                    Err(FoldError::InvalidSectionCast { expected: SHT_STRTAB, actual: names.tag })
                } else {
                    names.string_at(self.name as nat)
                },
            }
        }
    }

    /// The name of the section, as the `.shstrtab` section of its object holds it.
    pub fn display_name<'a>(&self, manifold: &'a Manifold) -> (r: Result<&'a [u8], FoldError>)
        requires
            manifold.objects.contains(self.obj),
        ensures
            r matches Ok(s) ==> self.spec_display_name(manifold) == Ok::<Seq<u8>, FoldError>(s@),
            r matches Err(e) ==> self.spec_display_name(manifold) == Err::<Seq<u8>, FoldError>(e),
    {
        let obj = manifold.objects.index(self.obj);
        let ndx = obj.e_shstrndx as usize;
        if ndx >= obj.sections.len() {
            return Err(FoldError::OutOfBounds);
        }
        match manifold.sections.get(obj.sections[ndx]) {
            None => Err(FoldError::MissingLinkedSection),
            Some(names) => {
                let table = names.as_string_table()?;
                table.get_symbol(self.name as usize)
            },
        }
    }
}

// ———————————————————————————————— SectionT ————————————————————————————————— //
/// What views of a section have in common: the section itself, and what the manifold knows of
/// it.
pub trait SectionT {
    /// The section viewed.
    spec fn spec_section(&self) -> Section;

    fn section(&self) -> (s: &Section)
        ensures
            *s == self.spec_section(),
    ;

    /// Return the section whose index is stored in `link`, fetching it from the manifold.
    fn get_linked_section<'a>(&self, manifold: &'a Manifold) -> (r: Result<&'a Section, FoldError>)
        requires
            manifold.objects.contains(self.spec_section().obj),
        ensures
            r matches Ok(s) ==> self.spec_section().spec_linked(manifold) == Ok::<
                Section,
                FoldError,
            >(*s),
            r matches Err(e) ==> self.spec_section().spec_linked(manifold) == Err::<
                Section,
                FoldError,
            >(e),
    {
        self.section().linked(manifold)
    }

    /// Return the name of the section stored in the `.shstrtab` section.
    fn get_display_name<'a>(&self, manifold: &'a Manifold) -> (r: Result<&'a [u8], FoldError>)
        requires
            manifold.objects.contains(self.spec_section().obj),
        ensures
            r matches Ok(s) ==> self.spec_section().spec_display_name(manifold) == Ok::<
                Seq<u8>,
                FoldError,
            >(s@),
            r matches Err(e) ==> self.spec_section().spec_display_name(manifold) == Err::<
                Seq<u8>,
                FoldError,
            >(e),
    {
        self.section().display_name(manifold)
    }
}

impl SectionT for Section {
    open spec fn spec_section(&self) -> Section {
        *self
    }

    fn section(&self) -> (s: &Section) {
        self
    }
}

impl<'a> SectionT for StringTableSection<'a> {
    open spec fn spec_section(&self) -> Section {
        *self.section
    }

    fn section(&self) -> (s: &Section) {
        self.section
    }
}

impl<'a> SectionT for SymbolTableSection<'a> {
    open spec fn spec_section(&self) -> Section {
        *self.section
    }

    fn section(&self) -> (s: &Section) {
        self.section
    }
}

// ——————————————————————————— StringTableSection ——————————————————————————— //
/// Wrapper over a string table section (`STRTAB`), exposing extra methods to read the table.
pub struct StringTableSection<'a> {
    pub section: &'a Section,
}

impl<'a> StringTableSection<'a> {
    /// Returns the string at the given offset in the table, without its NUL byte.
    pub fn get_symbol(&self, index: usize) -> (r: Result<&'a [u8], FoldError>)
        ensures
            r matches Ok(s) ==> self.section.string_at(index as nat) == Ok::<Seq<u8>, FoldError>(
                s@,
            ),
            r matches Err(e) ==> self.section.string_at(index as nat) == Err::<
                Seq<u8>,
                FoldError,
            >(e),
    {
        let section: &'a Section = self.section;
        if index > usize::MAX - section.offset {
            return Err(FoldError::OutOfBounds);
        }
        cstr_at(section.mapping.bytes(), section.offset + index)
    }
}

// ——————————————————————————— SymbolTableSection ——————————————————————————— //
/// Wrapper over a symbol table section (`SYMTAB` or `DYNSYM`), exposing extra methods to query
/// the symbols.
pub struct SymbolTableSection<'a> {
    pub section: &'a Section,
}

/// A view of a dynamic symbol table, under the name it had first.
pub type DynamicSymbolSection<'a> = SymbolTableSection<'a>;

/// The name of the symbol `sym` of the symbol table `table`: the string at `st_name` in the
/// string table that the symbol table is linked to.
pub open spec fn spec_symbol_name(table: &Section, sym: Sym, manifold: &Manifold) -> Result<Seq<u8>, FoldError> {
    match table.spec_linked(manifold) {
        Err(e) => Err(e),
        Ok(strings) => if strings.tag != SHT_STRTAB {
            Err(FoldError::InvalidSectionCast { expected: SHT_STRTAB, actual: strings.tag })
        } else {
            strings.string_at(sym.st_name as nat)
        },
    }
}

impl<'a> SymbolTableSection<'a> {
    /// The entry of the given index, or `OutOfBounds` where the table has no such entry.
    pub open spec fn spec_entry(&self, index: nat) -> Result<Sym, FoldError> {
        if index < self.section.entries::<Sym>().len() {
            Ok(self.section.entries::<Sym>()[index as int])
        } else {
            Err(FoldError::OutOfBounds)
        }
    }

    /// Return the entry at the given index.
    pub fn get_entry(&self, index: usize) -> (r: Result<Sym, FoldError>)
        ensures
            r == self.spec_entry(index as nat),
    {
        let section: &'a Section = self.section;
        if section.entity_size != Sym::size() {
            return Err(FoldError::OutOfBounds);
        }
        let mut it = ElfItemIterator::<Sym>::from_section(section);
        let mut k: usize = 0;
        proof {
            let all = section.entries::<Sym>();
            assert(it.remaining() == all);
            assert(all.subrange(0, all.len() as int) =~= all);
        }
        loop
            invariant
                it.item_size() == Sym::spec_size(),
                section == self.section,
                section.entity_size == Sym::spec_size(),
                k <= index,
                section.entries::<Sym>().len() >= k,
                it.remaining() == section.entries::<Sym>().subrange(
                    k as int,
                    section.entries::<Sym>().len() as int,
                ),
            decreases it.remaining().len(),
        {
            let ghost all = section.entries::<Sym>();
            assert(all.subrange(k as int, all.len() as int).len() == all.len() - k);
            match it.next() {
                None => {
                    assert(all.len() == k);
                    return Err(FoldError::OutOfBounds);
                },
                Some(sym) => {
                    assert(sym == all[k as int]);
                    if k == index {
                        return Ok(sym);
                    }
                    assert(all.subrange(k as int, all.len() as int).drop_first() =~= all.subrange(
                        k + 1,
                        all.len() as int,
                    ));
                    k = k + 1;
                },
            }
        }
    }

    /// Return the name of the symbol of the entry at the given index.
    pub fn get_symbol_name(&self, index: usize, manifold: &'a Manifold) -> (r: Result<&'a [u8], FoldError>)
        requires
            manifold.objects.contains(self.section.obj),
        ensures
            r matches Ok(s) ==> self.spec_entry(index as nat) matches Ok(sym) && spec_symbol_name(
                self.section,
                sym,
                manifold,
            ) == Ok::<Seq<u8>, FoldError>(s@),
            r matches Err(e) ==> match self.spec_entry(index as nat) {
                Err(e1) => e == e1,
                Ok(sym) => spec_symbol_name(self.section, sym, manifold) == Err::<
                    Seq<u8>,
                    FoldError,
                >(e),
            },
    {
        let entry = self.get_entry(index)?;
        self.name_of(&entry, manifold)
    }

    /// Return the entry at the given index with the name of its symbol.
    pub fn get_symbol_and_entry(&self, index: usize, manifold: &'a Manifold) -> (r: Result<(&'a [u8], Sym), FoldError>)
        requires
            manifold.objects.contains(self.section.obj),
        ensures
            r matches Ok((s, sym)) ==> self.spec_entry(index as nat) == Ok::<Sym, FoldError>(sym)
                && spec_symbol_name(self.section, sym, manifold) == Ok::<Seq<u8>, FoldError>(s@),
            r matches Err(e) ==> match self.spec_entry(index as nat) {
                Err(e1) => e == e1,
                Ok(sym) => spec_symbol_name(self.section, sym, manifold) == Err::<
                    Seq<u8>,
                    FoldError,
                >(e),
            },
    {
        let entry = self.get_entry(index)?;
        let name = self.name_of(&entry, manifold)?;
        Ok((name, entry))
    }

    /// The name of the symbol `sym` of this table.
    pub fn name_of(&self, sym: &Sym, manifold: &'a Manifold) -> (r: Result<&'a [u8], FoldError>)
        requires
            manifold.objects.contains(self.section.obj),
        ensures
            r matches Ok(s) ==> spec_symbol_name(self.section, *sym, manifold) == Ok::<
                Seq<u8>,
                FoldError,
            >(s@),
            r matches Err(e) ==> spec_symbol_name(self.section, *sym, manifold) == Err::<
                Seq<u8>,
                FoldError,
            >(e),
    {
        let strings = self.section.linked(manifold)?;
        let table = strings.as_string_table()?;
        table.get_symbol(sym.st_name as usize)
    }

    /// All the entries of the table, each with the name of its symbol or with the reason why
    /// the name cannot be read, in the order of the table.
    pub fn symbol_iter(&self, manifold: &'a Manifold) -> (r: Vec<Result<(Sym, &'a [u8]), FoldError>>)
        requires
            manifold.objects.contains(self.section.obj),
        ensures
            r@.len() == self.section.entries::<Sym>().len(),
            forall|i: int|
                0 <= i < r@.len() ==> match #[trigger] r@[i] {
                    Ok((sym, name)) => sym == self.section.entries::<Sym>()[i] && spec_symbol_name(
                        self.section,
                        sym,
                        manifold,
                    ) == Ok::<Seq<u8>, FoldError>(name@),
                    Err(e) => spec_symbol_name(
                        self.section,
                        self.section.entries::<Sym>()[i],
                        manifold,
                    ) == Err::<Seq<u8>, FoldError>(e),
                },
    {
        let section: &'a Section = self.section;
        let mut out: Vec<Result<(Sym, &'a [u8]), FoldError>> = Vec::new();
        if section.entity_size != Sym::size() {
            return out;
        }
        let mut it = self.entry_iter();
        let ghost entries = section.entries::<Sym>();
        assert(entries.subrange(0, entries.len() as int) =~= entries);
        loop
            invariant
                it.item_size() == Sym::spec_size(),
                section == self.section,
                manifold.objects.contains(section.obj),
                entries == section.entries::<Sym>(),
                out@.len() <= entries.len(),
                it.remaining() == entries.subrange(out@.len() as int, entries.len() as int),
                forall|i: int|
                    0 <= i < out@.len() ==> match #[trigger] out@[i] {
                        Ok((sym, name)) => sym == entries[i] && spec_symbol_name(
                            section,
                            sym,
                            manifold,
                        ) == Ok::<Seq<u8>, FoldError>(name@),
                        Err(e) => spec_symbol_name(section, entries[i], manifold) == Err::<
                            Seq<u8>,
                            FoldError,
                        >(e),
                    },
            decreases it.remaining().len(),
        {
            let ghost k = out@.len() as int;
            assert(entries.subrange(k, entries.len() as int).len() == entries.len() - k);
            match it.next() {
                None => {
                    return out;
                },
                Some(sym) => {
                    assert(sym == entries[k]);
                    assert(entries.subrange(k, entries.len() as int).drop_first()
                        =~= entries.subrange(k + 1, entries.len() as int));
                    let item = match self.name_of(&sym, manifold) {
                        Ok(name) => Ok((sym, name)),
                        Err(e) => Err(e),
                    };
                    out.push(item);
                },
            }
        }
    }

    /// Create an iterator over all the entries of the table, which must announce entries of
    /// the size of a symbol.
    pub fn entry_iter(&self) -> (it: ElfItemIterator<'a, Sym>)
        requires
            self.section.entity_size == Sym::spec_size(),
        ensures
            it.item_size() == Sym::spec_size(),
            it.remaining() == self.section.entries::<Sym>(),
    {
        ElfItemIterator::<Sym>::from_section(self.section)
    }
}

} // verus!
