//! The objects of a program: ELF files with their segments and sections.

use crate::arena::Handle;
use crate::bytes::bytes_eq;
use crate::elf::{
    spec_sym_bindings, sym_bindings, ElfHeader, ElfItem, ElfItemIterator, ProgramHeader,
    SectionHeader, Sym, EI_OSABI, SHN_UNDEF, SHT_DYNSYM, SHT_SYMTAB, SIZEOF_EHDR, STB_GLOBAL,
    STB_LOCAL, STB_WEAK,
};
use crate::manifold::Manifold;
use crate::object::section::spec_symbol_name;
use crate::search::{first_from, first_where, lemma_first_from_step};
use crate::error::FoldError;
use crate::file::Mapping;
use crate::share_map::ShareMap;
use std::sync::Arc;
use vstd::prelude::*;
use vstd::utf8::valid_utf8;
use vstd::slice::slice_subrange;
use vstd::string::StringSliceAdditionalSpecFns;

pub mod section;
pub mod segment;

pub use section::{DynamicSymbolSection, Section, SectionT, StringTableSection, SymbolTableSection};
pub use segment::Segment;

verus! {

/// An ELF object: one file of the program.
#[derive(Debug)]
pub struct Object {
    /// Path in the filesystem of the object's file, for diagnostics.
    pub path: Vec<u8>,
    /// Raw content of the object.
    pub mapping: Arc<Mapping>,
    /// Handles in the manifold of the sections of this object, in the order of the file's
    /// section header table.
    pub sections: Vec<Handle<Section>>,
    /// Handles in the manifold of the segments of this object, in the order of the file's
    /// program header table.
    pub segments: Vec<Handle<Segment>>,
    /// Handles in the manifold of the dependencies of this object.
    pub dependencies: Vec<Handle<Object>>,
    /// OS ABI
    pub os_abi: u8,
    /// Elf type
    pub elf_type: u16,
    /// ISA
    pub e_machine: u16,
    /// Offset of the section header table.
    pub e_shoff: usize,
    /// Size of the entries in the section header table.
    pub e_shentsize: u16,
    /// Number of entries in the section header table.
    pub e_shnum: u16,
    /// Offset of the program header table.
    pub e_phoff: usize,
    /// Size of entries in the program header table.
    pub e_phentsize: u16,
    /// Number of entries in the program header table.
    pub e_phnum: u16,
    /// Index of the section header string table.
    pub e_shstrndx: u16,
    /// Shared memory specific to this object.
    pub shared: ShareMap,
}

/// The text that `bytes` encode, where they encode one.
///
/// Trusted: this is `core::str::from_utf8` of std. It succeeds exactly where the bytes are
/// valid UTF-8, and then gives a string slice of the same bytes.
#[verifier::external_body]
pub(crate) fn text_of(bytes: &[u8]) -> (r: Option<&str>)
    ensures
        r.is_some() == valid_utf8(bytes@),
        r matches Some(s) ==> s.spec_bytes() == bytes@,
{
    match core::str::from_utf8(bytes) {
        Ok(s) => Some(s),
        Err(_) => None,
    }
}

/// How a path is shown: as the text `text` that it encodes, or as `<path is not utf-8>` where
/// it encodes none.
pub fn shown<'a>(text: Option<&'a str>) -> (p: &'a str)
    ensures
        p == match text {
            Some(t) => t,
            None => "<path is not utf-8>",
        },
{
    match text {
        Some(t) => t,
        None => "<path is not utf-8>",
    }
}

/// Why the bytes `raw` are refused as an ELF object, if they are: too short for a header, no
/// magic number, or another version than 1.
pub open spec fn header_defect(raw: Seq<u8>) -> Option<FoldError> {
    if raw.len() < 64 {
        Some(FoldError::OutOfBounds)
    } else if !ElfHeader::decode_at(raw, 0).has_magic() {
        Some(FoldError::InvalidMagic)
    } else if !ElfHeader::decode_at(raw, 0).has_version() {
        Some(FoldError::InvalidVersion)
    } else {
        None
    }
}

impl Object {
    /// Whether this object is what the header of `file` describes, without segments, sections
    /// and dependencies yet.
    pub open spec fn describes(&self, file: Arc<Mapping>, path: Seq<u8>) -> bool {
        &&& self.mapping == file
        &&& self.has_header_of(file@, path)
        &&& self.sections@.len() == 0
        &&& self.segments@.len() == 0
        &&& self.dependencies@.len() == 0
        &&& forall|name: Seq<u8>| self.shared.lookup(name).is_none()
    }

    /// Whether the object's own fields are those of the header of the file `raw`, and its
    /// content that file.
    pub open spec fn has_header_of(&self, raw: Seq<u8>, path: Seq<u8>) -> bool {
        let hdr = ElfHeader::decode_at(raw, 0);
        &&& self.path@ == path
        &&& self.mapping@ == raw
        &&& self.os_abi == hdr.e_ident@[EI_OSABI as int]
        &&& self.elf_type == hdr.e_type
        &&& self.e_machine == hdr.e_machine
        &&& self.e_shoff == hdr.e_shoff as usize
        &&& self.e_shentsize == hdr.e_shentsize
        &&& self.e_shnum == hdr.e_shnum
        &&& self.e_phoff == hdr.e_phoff as usize
        &&& self.e_phentsize == hdr.e_phentsize
        &&& self.e_phnum == hdr.e_phnum
        &&& self.e_shstrndx == hdr.e_shstrndx
    }

    /// Creates an object from the content of a file. Initially `sections`, `segments` and
    /// `dependencies` are empty: the manifold fills the first two, the collector the third.
    ///
    /// Fails where the file is too short to hold a header (`OutOfBounds`), where it does not
    /// start with the magic number (`InvalidMagic`), and where its version is not 1
    /// (`InvalidVersion`), in this order.
    pub fn new(file: Arc<Mapping>, path: Vec<u8>) -> (r: Result<Self, FoldError>)
        ensures
            match header_defect(file@) {
                Some(e) => r == Err::<Self, FoldError>(e),
                None => r matches Ok(obj) && obj.describes(file, path@),
            },
    {
        if file.len() < SIZEOF_EHDR {
            return Err(FoldError::OutOfBounds);
        }
        let hdr = ElfHeader::parse_at(file.bytes(), 0);
        match hdr.validate() {
            Err(e) => {
                return Err(e);
            },
            Ok(_) => {},
        }
        Ok(
            Self {
                sections: Vec::new(),
                segments: Vec::new(),
                dependencies: Vec::new(),
                path,
                os_abi: hdr.e_ident[EI_OSABI],
                elf_type: hdr.e_type,
                e_machine: hdr.e_machine,
                e_shoff: hdr.e_shoff as usize,
                e_shentsize: hdr.e_shentsize,
                e_shnum: hdr.e_shnum,
                e_phoff: hdr.e_phoff as usize,
                e_phentsize: hdr.e_phentsize,
                e_phnum: hdr.e_phnum,
                e_shstrndx: hdr.e_shstrndx,
                mapping: file,
                shared: ShareMap::new(),
            },
        )
    }

    /// Returns a slice of the object's content from `offset` to `offset + len`, which must lie
    /// inside the file.
    pub fn raw_slice(&self, offset: usize, len: usize) -> (s: &[u8])
        requires
            offset + len <= self.mapping@.len(),
        ensures
            s@ == self.mapping@.subrange(offset as int, offset + len),
    {
        let raw = self.mapping.bytes();
        let _total = raw.len();
        slice_subrange(raw, offset, offset + len)
    }

    /// Returns the ELF header of the object, whose file must be long enough to hold one.
    pub fn header(&self) -> (h: ElfHeader)
        requires
            self.mapping@.len() >= 64,
        ensures
            h == ElfHeader::decode_at(self.mapping@, 0),
    {
        ElfHeader::parse_at(self.mapping.bytes(), 0)
    }

    /// Whether the object meets the condition `filter`.
    pub fn matches(&self, filter: crate::filters::ObjectFilter) -> (b: bool)
        ensures
            b == filter.accepts(self),
    {
        filter.matches(self)
    }

    /// Returns the path of the file of the object as text, or `<path is not utf-8>` where the
    /// path is no text.
    pub fn display_path(&self) -> (p: &str)
        ensures
            valid_utf8(self.path@) ==> p.spec_bytes() == self.path@,
            !valid_utf8(self.path@) ==> p == "<path is not utf-8>",
    {
        shown(text_of(self.path.as_slice()))
    }

    /// Raw content of the object.
    pub fn raw(&self) -> (s: &[u8])
        ensures
            s@ == self.mapping@,
    {
        self.mapping.bytes()
    }

    /// Creates an iterator over the section header table, whose entries must have the size of
    /// a section header. See also [`ElfItemIterator`].
    pub fn section_headers(&self) -> (it: ElfItemIterator<'_, SectionHeader>)
        requires
            self.e_shentsize == SectionHeader::spec_size(),
        ensures
            it.item_size() == SectionHeader::spec_size(),
            it.remaining() == self.spec_section_headers(),
    {
        ElfItemIterator::new(self.raw(), self.e_shoff, self.e_shnum, self.e_shentsize)
    }

    /// Creates an iterator over the program header table, whose entries must have the size of
    /// a program header. See also [`ElfItemIterator`].
    pub fn program_headers(&self) -> (it: ElfItemIterator<'_, ProgramHeader>)
        requires
            self.e_phentsize == ProgramHeader::spec_size(),
        ensures
            it.item_size() == ProgramHeader::spec_size(),
            it.remaining() == self.spec_program_headers(),
    {
        ElfItemIterator::new(self.raw(), self.e_phoff, self.e_phnum, self.e_phentsize)
    }

    /// The entries of the section header table that the file holds.
    pub open spec fn spec_section_headers(&self) -> Seq<SectionHeader> {
        crate::elf::items_from::<SectionHeader>(
            self.mapping@,
            self.e_shoff as nat,
            table_end(self.e_shoff, self.e_shnum, self.e_shentsize),
            self.e_shentsize as nat,
        )
    }

    /// The entries of the program header table that the file holds.
    pub open spec fn spec_program_headers(&self) -> Seq<ProgramHeader> {
        crate::elf::items_from::<ProgramHeader>(
            self.mapping@,
            self.e_phoff as nat,
            table_end(self.e_phoff, self.e_phnum, self.e_phentsize),
            self.e_phentsize as nat,
        )
    }
}

// ————————————————————————————— Symbol lookup —————————————————————————————— //
/// Whether `sym` is an entry of the symbol table `table` for the name `symbol`.
pub open spec fn names(table: Section, manifold: &Manifold, symbol: Seq<u8>) -> spec_fn(Sym) -> bool {
    |sym: Sym| spec_symbol_name(&table, sym, manifold) == Ok::<Seq<u8>, FoldError>(symbol)
}

/// Whether `sym` is bound locally or globally and defined.
pub open spec fn is_strong_defined(sym: Sym) -> bool {
    (spec_sym_bindings(sym) == STB_LOCAL || spec_sym_bindings(sym) == STB_GLOBAL) && sym.st_shndx
        != SHN_UNDEF
}

/// Whether `sym` is an entry of `table` for the name `symbol` that is bound locally or globally
/// and defined.
pub open spec fn names_strongly(table: Section, manifold: &Manifold, symbol: Seq<u8>) -> spec_fn(
    Sym,
) -> bool {
    |sym: Sym| names(table, manifold, symbol)(sym) && is_strong_defined(sym)
}

/// Whether `sym` is an entry of `table` for the name `symbol` that is defined and whose binding
/// is `binding`.
pub open spec fn defines(table: Section, manifold: &Manifold, symbol: Seq<u8>, binding: u8) -> spec_fn(
    Sym,
) -> bool {
    |sym: Sym|
        names(table, manifold, symbol)(sym) && spec_sym_bindings(sym) == binding && sym.st_shndx
            != SHN_UNDEF
}

/// The entry that a symbol table offers for a name: the first entry of that name that is bound
/// locally or globally and defined; where there is none, the first entry of that name that is
/// bound weakly and defined. An undefined entry never stands for the table.
pub open spec fn offered(table: Section, manifold: &Manifold, symbol: Seq<u8>) -> Option<Sym> {
    let entries = table.entries::<Sym>();
    match first_where(entries, names_strongly(table, manifold, symbol)) {
        Some(sym) => Some(sym),
        None => first_where(entries, defines(table, manifold, symbol, STB_WEAK)),
    }
}

/// What a lookup of a symbol gives.
pub enum Lookup {
    /// A definition: the section that holds the symbol, and the symbol's entry.
    Found(Section, Sym),
    /// No definition.
    Missing,
    /// The search met a table that it could not read.
    Fail(FoldError),
}

/// What the search of one symbol table for a name gives.
pub enum TableOutcome {
    /// The table offers no entry of the name.
    Nothing,
    /// The table offers a defined entry that is not weak, in the section given.
    Strong(Section, Sym),
    /// The table offers a defined entry that is weak, in the section given.
    Weak(Section, Sym),
    /// The table offers a defined entry whose section cannot be had.
    Fail(FoldError),
}

/// The section of the object `obj` that holds the symbol `sym`: the one that `st_shndx`
/// designates among the object's sections.
pub open spec fn container(obj: &Object, sym: Sym, manifold: &Manifold) -> Result<Section, FoldError> {
    if sym.st_shndx as int >= obj.sections@.len() {
        Err(FoldError::OutOfBounds)
    } else {
        match manifold.sections.spec_get(obj.sections@[sym.st_shndx as int]) {
            Some(s) => Ok(s),
            None => Err(FoldError::OutOfBounds),
        }
    }
}

/// What the search of the symbol table `table` of `obj` for `symbol` gives.
pub open spec fn table_outcome(obj: &Object, table: Section, manifold: &Manifold, symbol: Seq<u8>) -> TableOutcome {
    match offered(table, manifold, symbol) {
        None => TableOutcome::Nothing,
        Some(sym) => match container(obj, sym, manifold) {
            Err(e) => TableOutcome::Fail(e),
            Ok(c) => if spec_sym_bindings(sym) != STB_WEAK {
                TableOutcome::Strong(c, sym)
            } else {
                TableOutcome::Weak(c, sym)
            },
        },
    }
}

/// The search of the symbol tables of tag `tag` of `obj`, from its section number `from` on,
/// with `weak` as what was found so far.
///
/// The tables are searched in the order of the object's sections. The first table that offers
/// a defined entry which is not weak ends the search with that entry. A table that offers a
/// defined weak entry replaces what was found so far. A defined entry whose section cannot be
/// had ends the search with an error.
pub open spec fn search_tables(
    obj: &Object,
    manifold: &Manifold,
    symbol: Seq<u8>,
    tag: u32,
    from: int,
    weak: Lookup,
) -> Lookup
    decreases obj.sections@.len() - from,
{
    if from < 0 || from >= obj.sections@.len() {
        weak
    } else {
        let table = manifold.sections@[obj.sections@[from].index() as int];
        if table.tag != tag {
            search_tables(obj, manifold, symbol, tag, from + 1, weak)
        } else {
            match table_outcome(obj, table, manifold, symbol) {
                TableOutcome::Nothing => search_tables(obj, manifold, symbol, tag, from + 1, weak),
                TableOutcome::Strong(c, sym) => Lookup::Found(c, sym),
                TableOutcome::Weak(c, sym) => search_tables(
                    obj,
                    manifold,
                    symbol,
                    tag,
                    from + 1,
                    Lookup::Found(c, sym),
                ),
                TableOutcome::Fail(e) => Lookup::Fail(e),
            }
        }
    }
}

/// The definition that `obj` has for `symbol` in its symbol tables of tag `tag`.
pub open spec fn spec_find_symbol(obj: &Object, manifold: &Manifold, symbol: Seq<u8>, tag: u32) -> Lookup {
    search_tables(obj, manifold, symbol, tag, 0, Lookup::Missing)
}

/// Section number `s` of `obj`.
pub open spec fn table_at(obj: &Object, manifold: &Manifold, s: int) -> Section {
    manifold.sections@[obj.sections@[s].index() as int]
}

/// Whether section number `s` of `obj` is a symbol table of tag `tag` whose entry number `k` is
/// a defined entry of the name `symbol` and of binding `binding`.
pub open spec fn table_defines(
    obj: &Object,
    manifold: &Manifold,
    symbol: Seq<u8>,
    tag: u32,
    binding: u8,
    s: int,
    k: int,
) -> bool {
    let table = table_at(obj, manifold, s);
    &&& 0 <= s < obj.sections@.len()
    &&& table.tag == tag
    &&& 0 <= k < table.entries::<Sym>().len()
    &&& defines(table, manifold, symbol, binding)(table.entries::<Sym>()[k])
}

/// The search of the symbol tables of tag `tag` of `obj`, from its section number `from` on,
/// for a defined entry of the name `symbol` and of binding `binding`.
///
/// The tables are searched in the order of the object's sections, each in the order of its
/// entries, and the first such entry ends the search: with the entry and the section that
/// holds the symbol, or with an error where that section cannot be had.
pub open spec fn search_bound(
    obj: &Object,
    manifold: &Manifold,
    symbol: Seq<u8>,
    tag: u32,
    binding: u8,
    from: int,
) -> Lookup
    decreases obj.sections@.len() - from,
{
    if from < 0 || from >= obj.sections@.len() {
        Lookup::Missing
    } else {
        let table = table_at(obj, manifold, from);
        if table.tag != tag {
            search_bound(obj, manifold, symbol, tag, binding, from + 1)
        } else {
            match first_where(table.entries::<Sym>(), defines(table, manifold, symbol, binding)) {
                None => search_bound(obj, manifold, symbol, tag, binding, from + 1),
                Some(sym) => match container(obj, sym, manifold) {
                    Ok(c) => Lookup::Found(c, sym),
                    Err(e) => Lookup::Fail(e),
                },
            }
        }
    }
}

/// The first definition of binding `binding` that `obj` has for `symbol` in its symbol tables
/// of tag `tag`.
pub open spec fn spec_find_bound(obj: &Object, manifold: &Manifold, symbol: Seq<u8>, tag: u32, binding: u8) -> Lookup {
    search_bound(obj, manifold, symbol, tag, binding, 0)
}

/// Whether the result `r` of a search says what `lookup` says: the definition found, none, or
/// the error that ended the search.
pub open spec fn finds(r: Result<Option<(&Section, Sym)>, FoldError>, lookup: Lookup) -> bool {
    match lookup {
        Lookup::Found(c, sym) => r matches Ok(Some((rc, rsym))) && *rc == c && rsym == sym,
        Lookup::Missing => r matches Ok(None),
        Lookup::Fail(e) => r matches Err(re) && re == e,
    }
}

/// Whether the result `r` of a lookup of `symbol` says what `lookup` says: the definition
/// found, the error that ended the search, or `SymbolNotFound` with the name looked for.
pub open spec fn reports(r: Result<(&Section, Sym), FoldError>, lookup: Lookup, symbol: Seq<u8>) -> bool {
    match lookup {
        Lookup::Found(c, sym) => r matches Ok((rc, rsym)) && *rc == c && rsym == sym,
        Lookup::Missing => r matches Err(FoldError::SymbolNotFound(name)) && name@ == symbol,
        Lookup::Fail(e) => r matches Err(re) && re == e,
    }
}

/// The entries of the symbol tables (`SHT_SYMTAB`) of `obj` from its section number `from` on,
/// each with its table, in the order of the sections and of the tables.
pub open spec fn symbols_from(obj: &Object, manifold: &Manifold, from: int) -> Seq<(Section, Sym)>
    decreases obj.sections@.len() - from,
{
    if from < 0 || from >= obj.sections@.len() {
        Seq::empty()
    } else {
        let table = manifold.sections@[obj.sections@[from].index() as int];
        if table.tag != SHT_SYMTAB {
            symbols_from(obj, manifold, from + 1)
        } else {
            Seq::new(table.entries::<Sym>().len(), |i: int| (table, table.entries::<Sym>()[i]))
                + symbols_from(obj, manifold, from + 1)
        }
    }
}

/// Whether `item` is the entry `entry.1` of the table `entry.0` with its name, or with the
/// reason why its name cannot be read.
pub open spec fn names_as(
    item: Result<(Sym, &[u8]), FoldError>,
    entry: (Section, Sym),
    manifold: &Manifold,
) -> bool {
    match item {
        Ok((sym, name)) => sym == entry.1 && spec_symbol_name(&entry.0, sym, manifold)
            == Ok::<Seq<u8>, FoldError>(name@),
        Err(e) => spec_symbol_name(&entry.0, entry.1, manifold) == Err::<
            Seq<u8>,
            FoldError,
        >(e),
    }
}

impl Object {
    /// Whether every section of this object is a section of `manifold`.
    pub open spec fn sections_live(&self, manifold: &Manifold) -> bool {
        forall|k: int|
            0 <= k < self.sections@.len() ==> manifold.sections.contains(#[trigger] self.sections@[k])
    }

    /// The first entry of the symbol table `table` that defines `symbol` with the binding
    /// `binding`.
    fn first_defined<'a>(table: &'a Section, manifold: &'a Manifold, symbol: &[u8], binding: u8) -> (r: Option<
        Sym,
    >)
        requires
            manifold.wf(),
            exists|i: int| 0 <= i < manifold.sections@.len() && manifold.sections@[i] == *table,
        ensures
            r == first_where(table.entries::<Sym>(), defines(*table, manifold, symbol@, binding)),
    {
        if table.entity_size != Sym::size() {
            return None;
        }
        proof {
            let i = choose|i: int| 0 <= i < manifold.sections@.len() && manifold.sections@[i] == *table;
            assert(manifold.section_owned(i));
        }
        let view = SymbolTableSection { section: table };
        let mut it = view.entry_iter();
        let ghost entries = table.entries::<Sym>();
        let ghost wanted = defines(*table, manifold, symbol@, binding);
        let ghost mut k: int = 0;
        assert(entries.subrange(0, entries.len() as int) =~= entries);
        loop
            invariant
                it.item_size() == Sym::spec_size(),
                manifold.objects.contains(table.obj),
                view.section == table,
                entries == table.entries::<Sym>(),
                wanted == defines(*table, manifold, symbol@, binding),
                0 <= k <= entries.len(),
                it.remaining() == entries.subrange(k as int, entries.len() as int),
                first_from(entries, wanted, 0) == first_from(entries, wanted, k as int),
            decreases it.remaining().len(),
        {
            assert(entries.subrange(k as int, entries.len() as int).len() == entries.len() - k);
            match it.next() {
                None => {
                    assert(k == entries.len());
                    return None;
                },
                Some(sym) => {
                    assert(sym == entries[k as int]);
                    assert(entries.subrange(k as int, entries.len() as int).drop_first()
                        =~= entries.subrange(k + 1, entries.len() as int));
                    proof {
                        lemma_first_from_step(entries, wanted, k as int);
                    }
                    if sym_bindings(&sym) == binding && sym.st_shndx != SHN_UNDEF {
                        let matches = match view.name_of(&sym, manifold) {
                            Ok(name) => bytes_eq(name, symbol),
                            Err(_) => false,
                        };
                        assert(matches == wanted(sym));
                        if matches {
                            return Some(sym);
                        }
                    }
                    assert(!wanted(sym));
                    proof {
                        k = k + 1;
                    }
                },
            }
        }
    }

    /// The entry that the symbol table `table` offers for `symbol`.
    fn offered_by<'a>(table: &'a Section, manifold: &'a Manifold, symbol: &[u8]) -> (r: Option<Sym>)
        requires
            manifold.wf(),
            exists|i: int| 0 <= i < manifold.sections@.len() && manifold.sections@[i] == *table,
        ensures
            r == offered(*table, manifold, symbol@),
    {
        if table.entity_size != Sym::size() {
            return None;
        }
        proof {
            let i = choose|i: int| 0 <= i < manifold.sections@.len() && manifold.sections@[i] == *table;
            assert(manifold.section_owned(i));
        }
        let view = SymbolTableSection { section: table };
        let mut it = view.entry_iter();
        let ghost entries = table.entries::<Sym>();
        let ghost p_weak = defines(*table, manifold, symbol@, STB_WEAK);
        let ghost p_strong = names_strongly(*table, manifold, symbol@);
        let mut weak: Option<Sym> = None;
        let ghost mut k: int = 0;
        assert(entries.subrange(0, entries.len() as int) =~= entries);
        loop
            invariant
                it.item_size() == Sym::spec_size(),
                manifold.objects.contains(table.obj),
                view.section == table,
                entries == table.entries::<Sym>(),
                p_weak == defines(*table, manifold, symbol@, STB_WEAK),
                p_strong == names_strongly(*table, manifold, symbol@),
                0 <= k <= entries.len(),
                it.remaining() == entries.subrange(k as int, entries.len() as int),
                first_from(entries, p_strong, 0) == first_from(entries, p_strong, k as int),
                weak.is_none() ==> first_from(entries, p_weak, 0) == first_from(
                    entries,
                    p_weak,
                    k as int,
                ),
                weak matches Some(sym) ==> first_where(entries, p_weak) == Some(sym),
            decreases it.remaining().len(),
        {
            assert(entries.subrange(k as int, entries.len() as int).len() == entries.len() - k);
            match it.next() {
                None => {
                    assert(k == entries.len());
                    return weak;
                },
                Some(sym) => {
                    assert(sym == entries[k as int]);
                    assert(entries.subrange(k as int, entries.len() as int).drop_first()
                        =~= entries.subrange(k + 1, entries.len() as int));
                    proof {
                        lemma_first_from_step(entries, p_strong, k as int);
                        lemma_first_from_step(entries, p_weak, k as int);
                    }
                    let matches = match view.name_of(&sym, manifold) {
                        Ok(name) => bytes_eq(name, symbol),
                        Err(_) => false,
                    };
                    assert(matches == names(*table, manifold, symbol@)(sym));
                    if matches && sym.st_shndx != SHN_UNDEF {
                        let binding = sym_bindings(&sym);
                        if binding == STB_LOCAL || binding == STB_GLOBAL {
                            assert(p_strong(sym));
                            return Some(sym);
                        }
                        if binding == STB_WEAK && weak.is_none() {
                            assert(p_weak(sym));
                            weak = Some(sym);
                        }
                    }
                    proof {
                        k = k + 1;
                    }
                },
            }
        }
    }

    /// What the search of the symbol table `table` of this object for `symbol` gives.
    fn search_table<'a>(&self, table: &'a Section, manifold: &'a Manifold, symbol: &[u8]) -> (r: Option<
        Result<(&'a Section, Sym, bool), FoldError>,
    >)
        requires
            manifold.wf(),
            exists|i: int| 0 <= i < manifold.sections@.len() && manifold.sections@[i] == *table,
        ensures
            match table_outcome(self, *table, manifold, symbol@) {
                TableOutcome::Nothing => r.is_none(),
                TableOutcome::Strong(c, sym) => r matches Some(Ok((rc, rsym, weak))) && *rc == c
                    && rsym == sym && !weak,
                TableOutcome::Weak(c, sym) => r matches Some(Ok((rc, rsym, weak))) && *rc == c
                    && rsym == sym && weak,
                TableOutcome::Fail(e) => r matches Some(Err(re)) && re == e,
            },
            r matches Some(Ok((c, _, _))) ==> manifold.objects.contains(c.obj),
    {
        match Self::offered_by(table, manifold, symbol) {
            None => None,
            Some(sym) => {
                let ndx = sym.st_shndx as usize;
                if ndx >= self.sections.len() {
                    return Some(Err(FoldError::OutOfBounds));
                }
                match manifold.sections.get(self.sections[ndx]) {
                    None => Some(Err(FoldError::OutOfBounds)),
                    Some(c) => {
                        assert(manifold.section_owned(self.sections@[ndx as int].index() as int));
                        Some(Ok((c, sym, sym_bindings(&sym) == STB_WEAK)))
                    },
                }
            },
        }
    }

    /// Resolves a symbol in the object's symbol tables of tag `tag`.
    fn find_symbol_<'a>(&self, symbol: &[u8], manifold: &'a Manifold, tag: u32) -> (r: Result<
        (&'a Section, Sym),
        FoldError,
    >)
        requires
            manifold.wf(),
            self.sections_live(manifold),
        ensures
            reports(r, spec_find_symbol(self, manifold, symbol@, tag), symbol@),
            r matches Ok((c, _)) ==> manifold.objects.contains(c.obj),
    {
        let mut weak: Option<(&'a Section, Sym)> = None;
        let ghost mut weak_spec: Lookup = Lookup::Missing;
        let mut k: usize = 0;
        while k < self.sections.len()
            invariant
                manifold.wf(),
                self.sections_live(manifold),
                k <= self.sections@.len(),
                spec_find_symbol(self, manifold, symbol@, tag) == search_tables(
                    self,
                    manifold,
                    symbol@,
                    tag,
                    k as int,
                    weak_spec,
                ),
                weak matches Some((c, sym)) ==> weak_spec == Lookup::Found(*c, sym)
                    && manifold.objects.contains(c.obj),
                weak.is_none() ==> weak_spec == Lookup::Missing,
            decreases self.sections@.len() - k,
        {
            let h = self.sections[k];
            assert(manifold.sections.contains(h));
            let table = manifold.sections.index(h);
            if table.tag == tag {
                match self.search_table(table, manifold, symbol) {
                    None => {},
                    Some(Err(e)) => {
                        return Err(e);
                    },
                    Some(Ok((c, sym, is_weak))) => {
                        if !is_weak {
                            return Ok((c, sym));
                        }
                        weak = Some((c, sym));
                        proof {
                            weak_spec = Lookup::Found(*c, sym);
                        }
                    },
                }
            }
            k = k + 1;
        }
        match weak {
            Some((c, sym)) => Ok((c, sym)),
            None => Err(FoldError::SymbolNotFound(crate::bytes::to_vec(symbol))),
        }
    }

    /// All the symbols of the symbol tables (`SHT_SYMTAB`) of this object, each with its name
    /// or with the reason why the name cannot be read: the entries of the first table in the
    /// order of the table, then those of the second, and so on.
    pub fn symbols<'a>(&self, manifold: &'a Manifold) -> (r: Vec<Result<(Sym, &'a [u8]), FoldError>>)
        requires
            manifold.wf(),
            self.sections_live(manifold),
        ensures
            r@.len() == symbols_from(self, manifold, 0).len(),
            forall|i: int|
                0 <= i < r@.len() ==> names_as(
                    #[trigger] r@[i],
                    symbols_from(self, manifold, 0)[i],
                    manifold,
                ),
    {
        let mut out: Vec<Result<(Sym, &'a [u8]), FoldError>> = Vec::new();
        let mut k: usize = 0;
        assert(Seq::<(Section, Sym)>::empty() + symbols_from(self, manifold, 0) =~= symbols_from(
            self,
            manifold,
            0,
        ));
        let ghost mut done: Seq<(Section, Sym)> = Seq::empty();
        while k < self.sections.len()
            invariant
                manifold.wf(),
                self.sections_live(manifold),
                k <= self.sections@.len(),
                symbols_from(self, manifold, 0) == done + symbols_from(self, manifold, k as int),
                out@.len() == done.len(),
                forall|i: int|
                    0 <= i < out@.len() ==> names_as(#[trigger] out@[i], done[i], manifold),
            decreases self.sections@.len() - k,
        {
            let h = self.sections[k];
            assert(manifold.sections.contains(h));
            assert(manifold.section_owned(h.index() as int));
            let section = manifold.sections.index(h);
            if section.tag == SHT_SYMTAB {
                let table = SymbolTableSection { section };
                let mut found = table.symbol_iter(manifold);
                let ghost entries = section.entries::<Sym>();
                let ghost more = Seq::new(entries.len(), |i: int| (*section, entries[i]));
                let ghost before = out@;
                let ghost found_view = found@;
                out.append(&mut found);
                proof {
                    assert(out@ =~= before + found_view);
                    let rest = symbols_from(self, manifold, k + 1);
                    assert(symbols_from(self, manifold, k as int) == more + rest);
                    assert(done + (more + rest) =~= (done + more) + rest);
                    assert forall|i: int| 0 <= i < out@.len() implies names_as(
                        #[trigger] out@[i],
                        (done + more)[i],
                        manifold,
                    ) by {
                        if i >= done.len() {
                            let j = i - done.len();
                            assert(out@[i] == found_view[j]);
                            assert((done + more)[i] == more[j]);
                        }
                    }
                    done = done + more;
                }
            }
            k = k + 1;
        }
        assert(done + Seq::<(Section, Sym)>::empty() =~= done);
        out
    }

    /// Finds the first defined entry of the name `symbol` and of binding `binding` in the
    /// symbol tables of tag `tag` of this object, with the section that holds the symbol.
    /// Entries of another binding, and undefined ones, are passed over.
    pub fn find_bound<'a>(&self, symbol: &[u8], manifold: &'a Manifold, tag: u32, binding: u8) -> (r: Result<
        Option<(&'a Section, Sym)>,
        FoldError,
    >)
        requires
            manifold.wf(),
            self.sections_live(manifold),
        ensures
            finds(r, spec_find_bound(self, manifold, symbol@, tag, binding)),
            r matches Ok(Some((c, _))) ==> manifold.objects.contains(c.obj),
    {
        let mut k: usize = 0;
        while k < self.sections.len()
            invariant
                manifold.wf(),
                self.sections_live(manifold),
                k <= self.sections@.len(),
                spec_find_bound(self, manifold, symbol@, tag, binding) == search_bound(
                    self,
                    manifold,
                    symbol@,
                    tag,
                    binding,
                    k as int,
                ),
            decreases self.sections@.len() - k,
        {
            let h = self.sections[k];
            assert(manifold.sections.contains(h));
            let table = manifold.sections.index(h);
            if table.tag == tag {
                match Self::first_defined(table, manifold, symbol, binding) {
                    None => {},
                    Some(sym) => {
                        let ndx = sym.st_shndx as usize;
                        if ndx >= self.sections.len() {
                            return Err(FoldError::OutOfBounds);
                        }
                        return match manifold.sections.get(self.sections[ndx]) {
                            None => Err(FoldError::OutOfBounds),
                            Some(c) => {
                                assert(manifold.section_owned(
                                    self.sections@[ndx as int].index() as int,
                                ));
                                Ok(Some((c, sym)))
                            },
                        };
                    },
                }
            }
            k = k + 1;
        }
        Ok(None)
    }

    /// Find the given symbol in one of the symbol tables (`SHT_SYMTAB`) of this object. A
    /// defined symbol that is not weak takes priority over a weak one.
    pub fn find_symbol<'a>(&self, symbol: &[u8], manifold: &'a Manifold) -> (r: Result<
        (&'a Section, Sym),
        FoldError,
    >)
        requires
            manifold.wf(),
            self.sections_live(manifold),
        ensures
            reports(r, spec_find_symbol(self, manifold, symbol@, SHT_SYMTAB), symbol@),
            r matches Ok((c, _)) ==> manifold.objects.contains(c.obj),
    {
        self.find_symbol_(symbol, manifold, SHT_SYMTAB)
    }

    /// Find the given symbol in one of the dynamic symbol tables (`SHT_DYNSYM`) of this
    /// object. A defined symbol that is not weak takes priority over a weak one.
    pub fn find_dynamic_symbol<'a>(&self, symbol: &[u8], manifold: &'a Manifold) -> (r: Result<
        (&'a Section, Sym),
        FoldError,
    >)
        requires
            manifold.wf(),
            self.sections_live(manifold),
        ensures
            reports(r, spec_find_symbol(self, manifold, symbol@, SHT_DYNSYM), symbol@),
            r matches Ok((c, _)) ==> manifold.objects.contains(c.obj),
    {
        self.find_symbol_(symbol, manifold, SHT_DYNSYM)
    }
}

/// Offset at which a table of `num` entries of `entsize` bytes from `off` on ends, or the
/// largest machine word where that exceeds it.
pub open spec fn table_end(off: usize, num: u16, entsize: u16) -> nat {
    if off + num * entsize <= usize::MAX {
        (off + num * entsize) as nat
    } else {
        usize::MAX as nat
    }
}

} // verus!
