//! The records of an ELF64 little-endian file, read from its bytes.
//!
//! Every record has a fixed size and holds integers at fixed offsets. [`ElfItem`] says for each
//! record type how it is read from bytes; [`ElfItemIterator`] walks a table of records.

use crate::bytes::{le_value, signed64, to_i64, u16_at, u32_at, u64_at};
use crate::error::FoldError;
use crate::object::Section;
use core::marker::PhantomData;
use vstd::prelude::*;

verus! {

// ——————————————————————————————— Constants ———————————————————————————————— //
/// Size in bytes of the file header.
pub const SIZEOF_EHDR: usize = 64;

/// Position in `e_ident` of the file's version.
pub const EI_VERSION: usize = 6;

/// Position in `e_ident` of the operating system ABI.
pub const EI_OSABI: usize = 7;

/// Program header tag of a loadable segment.
pub const PT_LOAD: u32 = 1;

/// Program header tag of the dynamic linking information.
pub const PT_DYNAMIC: u32 = 2;

/// Program header tag of the thread-local storage template.
pub const PT_TLS: u32 = 7;

/// Segment flag: executable.
pub const PF_X: u32 = 1;

/// Segment flag: writable.
pub const PF_W: u32 = 2;

/// Segment flag: readable.
pub const PF_R: u32 = 4;

/// Section tag of a symbol table.
pub const SHT_SYMTAB: u32 = 2;

/// Section tag of a string table.
pub const SHT_STRTAB: u32 = 3;

/// Section tag of relocation entries with addends.
pub const SHT_RELA: u32 = 4;

/// Section tag of the dynamic linking information.
pub const SHT_DYNAMIC: u32 = 6;

/// Section tag of the dynamic symbol table.
pub const SHT_DYNSYM: u32 = 11;

/// Section tag of the array of constructors.
pub const SHT_INIT_ARRAY: u32 = 14;

/// Section tag of the array of destructors.
pub const SHT_FINI_ARRAY: u32 = 15;

/// Section tag of relative relocations in compact form.
pub const SHT_RELR: u32 = 19;

/// Section index of an undefined symbol.
pub const SHN_UNDEF: u16 = 0;

/// Binding of a symbol that only its own object sees.
pub const STB_LOCAL: u8 = 0;

/// Binding of a symbol that every object sees.
pub const STB_GLOBAL: u8 = 1;

/// Binding of a symbol that every object sees and that a global one overrides.
pub const STB_WEAK: u8 = 2;

/// Dynamic entry tag: the name of a needed library.
pub const DT_NEEDED: u64 = 1;

pub const R_X86_64_NONE: u32 = 0;

pub const R_X86_64_64: u32 = 1;

pub const R_X86_64_COPY: u32 = 5;

pub const R_X86_64_GLOB_DAT: u32 = 6;

pub const R_X86_64_JUMP_SLOT: u32 = 7;

pub const R_X86_64_RELATIVE: u32 = 8;

pub const R_X86_64_32: u32 = 10;

pub const R_X86_64_32S: u32 = 11;

pub const R_X86_64_16: u32 = 12;

pub const R_X86_64_8: u32 = 14;

pub const R_X86_64_DTPMOD64: u32 = 16;

pub const R_X86_64_DTPOFF64: u32 = 17;

pub const R_X86_64_TPOFF64: u32 = 18;

pub const R_X86_64_TLSGD: u32 = 19;

pub const R_X86_64_TLSLD: u32 = 20;

pub const R_X86_64_DTPOFF32: u32 = 21;

pub const R_X86_64_GOTTPOFF: u32 = 22;

pub const R_X86_64_TPOFF32: u32 = 23;

pub const R_X86_64_IRELATIVE: u32 = 37;

// ————————————————————————————————— Items —————————————————————————————————— //
/// A record of fixed size that is read from little-endian bytes.
pub trait ElfItem: Sized + Copy {
    /// Size of a record in the file.
    spec fn spec_size() -> nat;

    /// The record that the bytes of `raw` from `at` on hold.
    spec fn decode_at(raw: Seq<u8>, at: int) -> Self;

    fn size() -> (n: usize)
        ensures
            n == Self::spec_size(),
            n > 0,
    ;

    /// Reads the record at `at`.
    fn parse_at(raw: &[u8], at: usize) -> (item: Self)
        requires
            at + Self::spec_size() <= raw@.len(),
        ensures
            item == Self::decode_at(raw@, at as int),
    ;
}

/// The 16-bit word of `raw` at `at`.
pub open spec fn word16(raw: Seq<u8>, at: int) -> u16 {
    le_value(raw.subrange(at, at + 2)) as u16
}

/// The 32-bit word of `raw` at `at`.
pub open spec fn word32(raw: Seq<u8>, at: int) -> u32 {
    le_value(raw.subrange(at, at + 4)) as u32
}

/// The 64-bit word of `raw` at `at`.
pub open spec fn word64(raw: Seq<u8>, at: int) -> u64 {
    le_value(raw.subrange(at, at + 8)) as u64
}

impl ElfItem for u64 {
    open spec fn spec_size() -> nat {
        8
    }

    open spec fn decode_at(raw: Seq<u8>, at: int) -> u64 {
        word64(raw, at)
    }

    fn size() -> (n: usize) {
        8
    }

    fn parse_at(raw: &[u8], at: usize) -> (item: u64) {
        let _len = raw.len();
        u64_at(raw, at)
    }
}

/// The file header.
#[derive(Clone, Copy, Debug, PartialEq, Eq)]
pub struct ElfHeader {
    pub e_ident: [u8; 16],
    pub e_type: u16,
    pub e_machine: u16,
    pub e_version: u32,
    pub e_entry: u64,
    pub e_phoff: u64,
    pub e_shoff: u64,
    pub e_flags: u32,
    pub e_ehsize: u16,
    pub e_phentsize: u16,
    pub e_phnum: u16,
    pub e_shentsize: u16,
    pub e_shnum: u16,
    pub e_shstrndx: u16,
}

impl ElfHeader {
    /// Whether the header starts with the magic number `0x7F 'E' 'L' 'F'`.
    pub open spec fn has_magic(self) -> bool {
        self.e_ident@[0] == 0x7F && self.e_ident@[1] == 0x45 && self.e_ident@[2] == 0x4C
            && self.e_ident@[3] == 0x46
    }

    /// Whether the header announces version 1 of the format.
    pub open spec fn has_version(self) -> bool {
        self.e_ident@[EI_VERSION as int] == 1
    }

    /// Checks the magic number, then the version.
    pub fn validate(&self) -> (r: Result<(), FoldError>)
        ensures
            r == if !self.has_magic() {
                Err::<(), FoldError>(FoldError::InvalidMagic)
            } else if !self.has_version() {
                Err(FoldError::InvalidVersion)
            } else {
                Ok(())
            },
    {
        let ident = &self.e_ident;
        if ident[0] != 0x7F || ident[1] != 0x45 || ident[2] != 0x4C || ident[3] != 0x46 {
            return Err(FoldError::InvalidMagic);
        }
        if ident[EI_VERSION] != 1 {
            return Err(FoldError::InvalidVersion);
        }
        Ok(())
    }
}

impl ElfItem for ElfHeader {
    open spec fn spec_size() -> nat {
        64
    }

    open spec fn decode_at(raw: Seq<u8>, at: int) -> ElfHeader {
        ElfHeader {
            e_ident: [
                raw[at],
                raw[at + 1],
                raw[at + 2],
                raw[at + 3],
                raw[at + 4],
                raw[at + 5],
                raw[at + 6],
                raw[at + 7],
                raw[at + 8],
                raw[at + 9],
                raw[at + 10],
                raw[at + 11],
                raw[at + 12],
                raw[at + 13],
                raw[at + 14],
                raw[at + 15],
            ],
            e_type: word16(raw, at + 16),
            e_machine: word16(raw, at + 18),
            e_version: word32(raw, at + 20),
            e_entry: word64(raw, at + 24),
            e_phoff: word64(raw, at + 32),
            e_shoff: word64(raw, at + 40),
            e_flags: word32(raw, at + 48),
            e_ehsize: word16(raw, at + 52),
            e_phentsize: word16(raw, at + 54),
            e_phnum: word16(raw, at + 56),
            e_shentsize: word16(raw, at + 58),
            e_shnum: word16(raw, at + 60),
            e_shstrndx: word16(raw, at + 62),
        }
    }

    fn size() -> (n: usize) {
        64
    }

    fn parse_at(raw: &[u8], at: usize) -> (item: ElfHeader) {
        let _len = raw.len();
        let e_ident: [u8; 16] = [
            raw[at],
            raw[at + 1],
            raw[at + 2],
            raw[at + 3],
            raw[at + 4],
            raw[at + 5],
            raw[at + 6],
            raw[at + 7],
            raw[at + 8],
            raw[at + 9],
            raw[at + 10],
            raw[at + 11],
            raw[at + 12],
            raw[at + 13],
            raw[at + 14],
            raw[at + 15],
        ];
        ElfHeader {
            e_ident,
            e_type: u16_at(raw, at + 16),
            e_machine: u16_at(raw, at + 18),
            e_version: u32_at(raw, at + 20),
            e_entry: u64_at(raw, at + 24),
            e_phoff: u64_at(raw, at + 32),
            e_shoff: u64_at(raw, at + 40),
            e_flags: u32_at(raw, at + 48),
            e_ehsize: u16_at(raw, at + 52),
            e_phentsize: u16_at(raw, at + 54),
            e_phnum: u16_at(raw, at + 56),
            e_shentsize: u16_at(raw, at + 58),
            e_shnum: u16_at(raw, at + 60),
            e_shstrndx: u16_at(raw, at + 62),
        }
    }
}

/// An entry of the program header table: one segment.
#[derive(Clone, Copy, Debug, PartialEq, Eq)]
pub struct ProgramHeader {
    pub p_type: u32,
    pub p_flags: u32,
    pub p_offset: u64,
    pub p_vaddr: u64,
    pub p_paddr: u64,
    pub p_filesz: u64,
    pub p_memsz: u64,
    pub p_align: u64,
}

impl ElfItem for ProgramHeader {
    open spec fn spec_size() -> nat {
        56
    }

    open spec fn decode_at(raw: Seq<u8>, at: int) -> ProgramHeader {
        ProgramHeader {
            p_type: word32(raw, at),
            p_flags: word32(raw, at + 4),
            p_offset: word64(raw, at + 8),
            p_vaddr: word64(raw, at + 16),
            p_paddr: word64(raw, at + 24),
            p_filesz: word64(raw, at + 32),
            p_memsz: word64(raw, at + 40),
            p_align: word64(raw, at + 48),
        }
    }

    fn size() -> (n: usize) {
        56
    }

    fn parse_at(raw: &[u8], at: usize) -> (item: ProgramHeader) {
        let _len = raw.len();
        ProgramHeader {
            p_type: u32_at(raw, at),
            p_flags: u32_at(raw, at + 4),
            p_offset: u64_at(raw, at + 8),
            p_vaddr: u64_at(raw, at + 16),
            p_paddr: u64_at(raw, at + 24),
            p_filesz: u64_at(raw, at + 32),
            p_memsz: u64_at(raw, at + 40),
            p_align: u64_at(raw, at + 48),
        }
    }
}

/// An entry of the section header table: one section.
#[derive(Clone, Copy, Debug, PartialEq, Eq)]
pub struct SectionHeader {
    pub sh_name: u32,
    pub sh_type: u32,
    pub sh_flags: u64,
    pub sh_addr: u64,
    pub sh_offset: u64,
    pub sh_size: u64,
    pub sh_link: u32,
    pub sh_info: u32,
    pub sh_addralign: u64,
    pub sh_entsize: u64,
}

impl ElfItem for SectionHeader {
    open spec fn spec_size() -> nat {
        64
    }

    open spec fn decode_at(raw: Seq<u8>, at: int) -> SectionHeader {
        SectionHeader {
            sh_name: word32(raw, at),
            sh_type: word32(raw, at + 4),
            sh_flags: word64(raw, at + 8),
            sh_addr: word64(raw, at + 16),
            sh_offset: word64(raw, at + 24),
            sh_size: word64(raw, at + 32),
            sh_link: word32(raw, at + 40),
            sh_info: word32(raw, at + 44),
            sh_addralign: word64(raw, at + 48),
            sh_entsize: word64(raw, at + 56),
        }
    }

    fn size() -> (n: usize) {
        64
    }

    fn parse_at(raw: &[u8], at: usize) -> (item: SectionHeader) {
        let _len = raw.len();
        SectionHeader {
            sh_name: u32_at(raw, at),
            sh_type: u32_at(raw, at + 4),
            sh_flags: u64_at(raw, at + 8),
            sh_addr: u64_at(raw, at + 16),
            sh_offset: u64_at(raw, at + 24),
            sh_size: u64_at(raw, at + 32),
            sh_link: u32_at(raw, at + 40),
            sh_info: u32_at(raw, at + 44),
            sh_addralign: u64_at(raw, at + 48),
            sh_entsize: u64_at(raw, at + 56),
        }
    }
}

/// An entry of a symbol table.
#[derive(Clone, Copy, Debug, PartialEq, Eq)]
pub struct Sym {
    pub st_name: u32,
    pub st_info: u8,
    pub st_other: u8,
    pub st_shndx: u16,
    pub st_value: u64,
    pub st_size: u64,
}

impl ElfItem for Sym {
    open spec fn spec_size() -> nat {
        24
    }

    open spec fn decode_at(raw: Seq<u8>, at: int) -> Sym {
        Sym {
            st_name: word32(raw, at),
            st_info: raw[at + 4],
            st_other: raw[at + 5],
            st_shndx: word16(raw, at + 6),
            st_value: word64(raw, at + 8),
            st_size: word64(raw, at + 16),
        }
    }

    fn size() -> (n: usize) {
        24
    }

    fn parse_at(raw: &[u8], at: usize) -> (item: Sym) {
        let _len = raw.len();
        Sym {
            st_name: u32_at(raw, at),
            st_info: raw[at + 4],
            st_other: raw[at + 5],
            st_shndx: u16_at(raw, at + 6),
            st_value: u64_at(raw, at + 8),
            st_size: u64_at(raw, at + 16),
        }
    }
}

/// A relocation entry with an addend.
#[derive(Clone, Copy, Debug, PartialEq, Eq)]
pub struct Rela {
    pub r_offset: u64,
    pub r_info: u64,
    pub r_addend: i64,
}

impl ElfItem for Rela {
    open spec fn spec_size() -> nat {
        24
    }

    open spec fn decode_at(raw: Seq<u8>, at: int) -> Rela {
        Rela {
            r_offset: word64(raw, at),
            r_info: word64(raw, at + 8),
            r_addend: signed64(word64(raw, at + 16) as nat) as i64,
        }
    }

    fn size() -> (n: usize) {
        24
    }

    fn parse_at(raw: &[u8], at: usize) -> (item: Rela) {
        let _len = raw.len();
        Rela {
            r_offset: u64_at(raw, at),
            r_info: u64_at(raw, at + 8),
            r_addend: to_i64(u64_at(raw, at + 16)),
        }
    }
}

/// A relocation entry without an addend.
#[derive(Clone, Copy, Debug, PartialEq, Eq)]
pub struct Rel {
    pub r_offset: u64,
    pub r_info: u64,
}

impl ElfItem for Rel {
    open spec fn spec_size() -> nat {
        16
    }

    open spec fn decode_at(raw: Seq<u8>, at: int) -> Rel {
        Rel { r_offset: word64(raw, at), r_info: word64(raw, at + 8) }
    }

    fn size() -> (n: usize) {
        16
    }

    fn parse_at(raw: &[u8], at: usize) -> (item: Rel) {
        let _len = raw.len();
        Rel { r_offset: u64_at(raw, at), r_info: u64_at(raw, at + 8) }
    }
}

/// An entry of the dynamic section.
#[derive(Clone, Copy, Debug, PartialEq, Eq)]
pub struct Dyn {
    pub d_tag: u64,
    pub d_val: u64,
}

impl ElfItem for Dyn {
    open spec fn spec_size() -> nat {
        16
    }

    open spec fn decode_at(raw: Seq<u8>, at: int) -> Dyn {
        Dyn { d_tag: word64(raw, at), d_val: word64(raw, at + 8) }
    }

    fn size() -> (n: usize) {
        16
    }

    fn parse_at(raw: &[u8], at: usize) -> (item: Dyn) {
        let _len = raw.len();
        Dyn { d_tag: u64_at(raw, at), d_val: u64_at(raw, at + 8) }
    }
}

// —————————————————————————————— Tagged Items —————————————————————————————— //
/// A record that carries a tag by which it is looked for.
pub trait Tagged: ElfItem {
    /// The record's tag, widened to 64 bits.
    spec fn spec_tag(self) -> u64;

    fn tag(&self) -> (t: u64)
        ensures
            t == self.spec_tag(),
    ;
}

impl Tagged for Dyn {
    open spec fn spec_tag(self) -> u64 {
        self.d_tag
    }

    fn tag(&self) -> (t: u64) {
        self.d_tag
    }
}

impl Tagged for ProgramHeader {
    open spec fn spec_tag(self) -> u64 {
        self.p_type as u64
    }

    fn tag(&self) -> (t: u64) {
        self.p_type as u64
    }
}

impl Tagged for SectionHeader {
    open spec fn spec_tag(self) -> u64 {
        self.sh_type as u64
    }

    fn tag(&self) -> (t: u64) {
        self.sh_type as u64
    }
}

// ——————————————————————————————— Iterators ———————————————————————————————— //
/// The records of `size` bytes each that `raw` holds from `idx` on in full, up to `end`.
pub open spec fn items_from<T: ElfItem>(raw: Seq<u8>, idx: nat, end: nat, size: nat) -> Seq<T>
    decreases
            (if idx < end {
                end - idx
            } else {
                0
            }),
{
    if size == 0 || idx >= end || idx + size > raw.len() {
        Seq::empty()
    } else {
        seq![T::decode_at(raw, idx as int)] + items_from::<T>(raw, idx + size, end, size)
    }
}

/// `a + b`, or the largest machine word where the sum exceeds it.
pub fn saturating_sum(a: usize, b: usize) -> (r: usize)
    ensures
        r == if a + b <= usize::MAX {
            a + b
        } else {
            usize::MAX as int
        },
{
    if a > usize::MAX - b {
        usize::MAX
    } else {
        a + b
    }
}

/// Walks a table of records of type `T` in the bytes of a file.
///
/// The table goes from an offset up to an end; a record that would start at or after the end,
/// or that the file's bytes do not hold in full, ends the walk.
pub struct ElfItemIterator<'a, T> {
    raw: &'a [u8],
    idx: usize,
    end: usize,
    item_size: usize,
    _marker: PhantomData<T>,
}

impl<'a, T: ElfItem> ElfItemIterator<'a, T> {
    /// The bytes walked.
    pub closed spec fn raw(&self) -> Seq<u8> {
        self.raw@
    }

    /// Offset of the record that comes next.
    pub closed spec fn position(&self) -> nat {
        self.idx as nat
    }

    /// Offset at which the table ends.
    pub closed spec fn end(&self) -> nat {
        self.end as nat
    }

    /// Distance between two records.
    pub closed spec fn item_size(&self) -> nat {
        self.item_size as nat
    }

    /// The records still to come, in order.
    pub open spec fn remaining(&self) -> Seq<T> {
        items_from::<T>(self.raw(), self.position(), self.end(), self.item_size())
    }

    /// Creates an iterator over `e_shnum` records of `e_shentsize` bytes from `e_shoff` on.
    ///
    /// - `raw`: The content of the object that holds the table.
    /// - `e_shoff`: Where the table starts in the object.
    /// - `e_shnum`: The number of entries of the table.
    /// - `e_shentsize`: The size of an entry, which must be the size of a `T`.
    pub fn new(raw: &'a [u8], e_shoff: usize, e_shnum: u16, e_shentsize: u16) -> (it: Self)
        requires
            e_shentsize == T::spec_size(),
        ensures
            it.raw() == raw@,
            it.position() == e_shoff,
            it.end() == if e_shoff + e_shnum * e_shentsize <= usize::MAX {
                e_shoff + e_shnum * e_shentsize
            } else {
                usize::MAX as int
            },
            it.item_size() == T::spec_size(),
    {
        assert(e_shnum * e_shentsize <= 0xffff * 0xffff) by (nonlinear_arith)
            requires
                e_shnum <= 0xffff,
                e_shentsize <= 0xffff,
        ;
        let len: u32 = (e_shnum as u32) * (e_shentsize as u32);
        Self {
            raw,
            idx: e_shoff,
            end: saturating_sum(e_shoff, len as usize),
            item_size: e_shentsize as usize,
            _marker: PhantomData,
        }
    }

    /// Creates an iterator over the records of the `e_shsize` bytes from `e_shoff` on.
    pub fn with_len(raw: &'a [u8], e_shoff: usize, e_shsize: usize) -> (it: Self)
        ensures
            it.raw() == raw@,
            it.position() == e_shoff,
            it.end() == if e_shoff + e_shsize <= usize::MAX {
                e_shoff + e_shsize
            } else {
                usize::MAX as int
            },
            it.item_size() == T::spec_size(),
    {
        Self {
            raw,
            idx: e_shoff,
            end: saturating_sum(e_shoff, e_shsize),
            item_size: T::size(),
            _marker: PhantomData,
        }
    }

    /// Creates an iterator over the content of the section that `sh` describes, which must
    /// announce entries of the size of a `T`.
    pub fn from_section_header(raw: &'a [u8], sh: &SectionHeader) -> (it: Self)
        requires
            sh.sh_entsize == T::spec_size(),
        ensures
            it.raw() == raw@,
            it.position() == if sh.sh_offset <= usize::MAX {
                sh.sh_offset as int
            } else {
                usize::MAX as int
            },
            it.end() == if sh.sh_offset + sh.sh_size <= usize::MAX {
                sh.sh_offset + sh.sh_size
            } else {
                usize::MAX as int
            },
            it.item_size() == T::spec_size(),
    {
        let offset: usize = if sh.sh_offset <= usize::MAX as u64 {
            sh.sh_offset as usize
        } else {
            usize::MAX
        };
        let size: usize = if sh.sh_size <= usize::MAX as u64 {
            sh.sh_size as usize
        } else {
            usize::MAX
        };
        Self {
            raw,
            idx: offset,
            end: saturating_sum(offset, size),
            item_size: T::size(),
            _marker: PhantomData,
        }
    }

    /// Creates an iterator over the content of a section, which must announce entries of the
    /// size of a `T`.
    pub fn from_section(sh: &'a Section) -> (it: Self)
        requires
            sh.entity_size == T::spec_size(),
        ensures
            it.raw() == sh.mapping.view(),
            it.position() == sh.offset,
            it.end() == if sh.offset + sh.size <= usize::MAX {
                sh.offset + sh.size
            } else {
                usize::MAX as int
            },
            it.item_size() == T::spec_size(),
    {
        Self {
            raw: sh.mapping.bytes(),
            idx: sh.offset,
            end: saturating_sum(sh.offset, sh.size),
            item_size: sh.entity_size,
            _marker: PhantomData,
        }
    }

    /// The next record, or `None` at the end of the table.
    pub fn next(&mut self) -> (r: Option<T>)
        requires
            old(self).item_size() == T::spec_size(),
        ensures
            final(self).raw() == old(self).raw(),
            final(self).end() == old(self).end(),
            final(self).item_size() == old(self).item_size(),
            old(self).remaining().len() == 0 ==> r.is_none() && final(self).remaining().len() == 0,
            old(self).remaining().len() > 0 ==> r == Some(old(self).remaining()[0])
                && final(self).remaining() == old(self).remaining().drop_first(),
    {
        let idx = self.idx;
        let size = T::size();
        if idx >= self.end || idx > self.raw.len() || size > self.raw.len() - idx {
            return None;
        }
        let item = T::parse_at(self.raw, idx);
        self.idx = idx + size;
        proof {
            let rest = items_from::<T>(
                self.raw@,
                (idx + size) as nat,
                self.end as nat,
                size as nat,
            );
            assert(old(self).remaining() == seq![item] + rest);
            assert((seq![item] + rest).drop_first() =~= rest);
        }
        Some(item)
    }

    /// A copy of this iterator, at the same record.
    pub fn clone(&self) -> (it: Self)
        ensures
            it.raw() == self.raw(),
            it.position() == self.position(),
            it.end() == self.end(),
            it.item_size() == self.item_size(),
    {
        Self {
            raw: self.raw,
            idx: self.idx,
            end: self.end,
            item_size: self.item_size,
            _marker: PhantomData,
        }
    }

    /// The records still to come, read out in order.
    pub fn collect(self) -> (v: Vec<T>)
        requires
            self.item_size() == T::spec_size(),
        ensures
            v@ == self.remaining(),
    {
        let mut it = self;
        let mut out: Vec<T> = Vec::new();
        loop
            invariant
                it.item_size() == T::spec_size(),
                it.raw() == self.raw(),
                it.end() == self.end(),
                it.item_size() == self.item_size(),
                self.remaining() == out@ + it.remaining(),
            decreases it.remaining().len(),
        {
            let ghost before = it.remaining();
            match it.next() {
                Some(item) => {
                    out.push(item);
                    assert(out@ + it.remaining() =~= (out@.drop_last() + before));
                },
                None => {
                    assert(out@ + it.remaining() =~= out@);
                    return out;
                },
            }
        }
    }
}

impl<'a, T: Tagged> ElfItemIterator<'a, T> {
    /// The first record still to come that carries `tag`. The iterator stays where it is.
    pub fn find_tag(&self, tag: u64) -> (r: Option<T>)
        requires
            self.item_size() == T::spec_size(),
        ensures
            r == first_tagged(self.remaining(), tag),
    {
        let mut it = self.clone();
        loop
            invariant
                it.item_size() == T::spec_size(),
                first_tagged(self.remaining(), tag) == first_tagged(it.remaining(), tag),
            decreases it.remaining().len(),
        {
            match it.next() {
                Some(item) => {
                    if item.tag() == tag {
                        return Some(item);
                    }
                },
                None => {
                    return None;
                },
            }
        }
    }
}

/// The first record of `items` that carries `tag`.
pub open spec fn first_tagged<T: Tagged>(items: Seq<T>, tag: u64) -> Option<T>
    decreases items.len(),
{
    if items.len() == 0 {
        None
    } else if items[0].spec_tag() == tag {
        Some(items[0])
    } else {
        first_tagged(items.drop_first(), tag)
    }
}

impl<'a> ElfItemIterator<'a, ProgramHeader> {
    /// Moves to the first segment still to come of type `p_type` and past it, and returns it.
    pub fn find_segment(&mut self, p_type: u32) -> (r: Option<ProgramHeader>)
        requires
            old(self).item_size() == ProgramHeader::spec_size(),
        ensures
            r == first_tagged(old(self).remaining(), p_type as u64),
    {
        loop
            invariant
                self.item_size() == ProgramHeader::spec_size(),
                first_tagged(old(self).remaining(), p_type as u64) == first_tagged(
                    self.remaining(),
                    p_type as u64,
                ),
            decreases self.remaining().len(),
        {
            match self.next() {
                Some(segment) => {
                    if segment.p_type == p_type {
                        return Some(segment);
                    }
                },
                None => {
                    return None;
                },
            }
        }
    }
}

impl<'a> ElfItemIterator<'a, SectionHeader> {
    /// Moves to the first section still to come of type `sh_type` and past it, and returns it.
    pub fn find_section(&mut self, sh_type: u32) -> (r: Option<SectionHeader>)
        requires
            old(self).item_size() == SectionHeader::spec_size(),
        ensures
            r == first_tagged(old(self).remaining(), sh_type as u64),
    {
        loop
            invariant
                self.item_size() == SectionHeader::spec_size(),
                first_tagged(old(self).remaining(), sh_type as u64) == first_tagged(
                    self.remaining(),
                    sh_type as u64,
                ),
            decreases self.remaining().len(),
        {
            match self.next() {
                Some(section) => {
                    if section.sh_type == sh_type {
                        return Some(section);
                    }
                },
                None => {
                    return None;
                },
            }
        }
    }
}

// —————————————————————————— Helpers for symbols ——————————————————————————— //
/// The binding of a symbol: the high four bits of its `st_info`.
pub open spec fn spec_sym_bindings(sym: Sym) -> u8 {
    sym.st_info / 16
}

/// Return the `BINDING` value of the symbol.
pub fn sym_bindings(sym: &Sym) -> (b: u8)
    ensures
        b == spec_sym_bindings(*sym),
{
    let info: u8 = sym.st_info;
    assert(info >> 4 == info / 16) by (bit_vector);
    info >> 4
}

// ———————————————————————————————— Strings ————————————————————————————————— //
/// Position of the first NUL byte of `raw` at or after `from`, or the length of `raw` where
/// there is none.
pub open spec fn nul_from(raw: Seq<u8>, from: int) -> int
    decreases raw.len() - from,
{
    if from < 0 || from >= raw.len() {
        raw.len() as int
    } else if raw[from] == 0 {
        from
    } else {
        nul_from(raw, from + 1)
    }
}

/// The string that starts at `at` in `raw`: the bytes up to the first NUL byte, which must be
/// there.
pub open spec fn spec_cstr_at(raw: Seq<u8>, at: int) -> Result<Seq<u8>, FoldError> {
    if 0 <= at <= raw.len() && nul_from(raw, at) < raw.len() {
        Ok(raw.subrange(at, nul_from(raw, at)))
    } else if 0 <= at <= raw.len() {
        Err(FoldError::InvalidString)
    } else {
        Err(FoldError::OutOfBounds)
    }
}

/// Reads the NUL-terminated string that starts at `at`, without its NUL byte.
///
/// Fails with `OutOfBounds` where `at` lies beyond the end of `raw`, and with `InvalidString`
/// where no NUL byte follows.
pub fn cstr_at(raw: &[u8], at: usize) -> (r: Result<&[u8], FoldError>)
    ensures
        r matches Ok(s) ==> spec_cstr_at(raw@, at as int) == Ok::<Seq<u8>, FoldError>(s@),
        r matches Err(e) ==> spec_cstr_at(raw@, at as int) == Err::<Seq<u8>, FoldError>(e),
{
    if at > raw.len() {
        return Err(FoldError::OutOfBounds);
    }
    let mut i: usize = at;
    while i < raw.len() && raw[i] != 0
        invariant
            at <= i <= raw@.len(),
            nul_from(raw@, at as int) == nul_from(raw@, i as int),
        decreases raw@.len() - i,
    {
        i = i + 1;
    }
    if i == raw.len() {
        Err(FoldError::InvalidString)
    } else {
        Ok(vstd::slice::slice_subrange(raw, at, i))
    }
}

} // verus!
