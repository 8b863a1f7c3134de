//! Relocation of the objects of a program.
//!
//! The relocator reads the relocation records of an object and decides what must be written
//! where. It does not touch memory: the decisions come out as a list of [`RelocAction`]s, in
//! the order of the records, for the caller to carry out.

use crate::arena::Handle;
use crate::elf::{
    ElfItem, ElfItemIterator, Rela, Sym, R_X86_64_16, R_X86_64_32, R_X86_64_32S, R_X86_64_64,
    R_X86_64_8, R_X86_64_COPY, R_X86_64_DTPMOD64, R_X86_64_DTPOFF32, R_X86_64_DTPOFF64,
    R_X86_64_GLOB_DAT, R_X86_64_GOTTPOFF, R_X86_64_IRELATIVE, R_X86_64_JUMP_SLOT, R_X86_64_NONE,
    R_X86_64_RELATIVE, R_X86_64_TLSGD, R_X86_64_TLSLD, R_X86_64_TPOFF32, R_X86_64_TPOFF64,
    SHT_DYNSYM, SHT_RELA, SHT_SYMTAB,
};
use crate::error::{FoldError, SysvError};
use crate::manifold::{resolve, Manifold};
use crate::object::section::spec_symbol_name;
use crate::object::{spec_find_symbol, Lookup, Object, Section};
use crate::sysv::loader::{address_sum, base_of, spec_base_of, wrapping_sum};
use vstd::prelude::*;

verus! {

// ————————————————————————————— Record fields —————————————————————————————— //
/// The relocation type of a record: the low 32 bits of `r_info`.
///
/// Trusted: this is `r_type` of goblin's `elf::reloc::reloc64`, which masks `info` with
/// `0xffff_ffff` and narrows the result to 32 bits.
pub assume_specification[ goblin::elf::reloc::reloc64::r_type ](info: u64) -> (t: u32)
    ensures
        t == (info & 0xffff_ffff) as u32,
;

/// The symbol index of a record: the high 32 bits of `r_info`.
///
/// Trusted: this is `r_sym` of goblin's `elf::reloc::reloc64`, which shifts `info` right by 32
/// bits and narrows the result to 32 bits.
pub assume_specification[ goblin::elf::reloc::reloc64::r_sym ](info: u64) -> (s: u32)
    ensures
        s == (info >> 32) as u32,
;

/// The relocation type of a record.
pub open spec fn spec_reloc_type(info: u64) -> u32 {
    (info % 0x1_0000_0000) as u32
}

/// The symbol index of a record.
pub open spec fn spec_reloc_sym(info: u64) -> u32 {
    (info / 0x1_0000_0000) as u32
}

/// Splits `r_info` into the relocation type and the symbol index.
pub fn split_info(info: u64) -> (r: (u32, u32))
    ensures
        r.0 == spec_reloc_type(info),
        r.1 == spec_reloc_sym(info),
{
    assert(info & 0xffff_ffff == info % 0x1_0000_0000) by (bit_vector);
    assert(info >> 32 == info / 0x1_0000_0000) by (bit_vector);
    (goblin::elf::reloc::reloc64::r_type(info), goblin::elf::reloc::reloc64::r_sym(info))
}

// —————————————————————————————— Arithmetic ———————————————————————————————— //
/// `x` as a 64-bit word: arithmetic on the values of relocations wraps around.
pub open spec fn wrap64(x: int) -> u64 {
    (x % 0x1_0000_0000_0000_0000) as u64
}

/// The low `width` bytes of `value`, for a `width` of 1, 2, 4 or 8.
pub open spec fn low_bytes(value: u64, width: usize) -> u64 {
    if width == 1 {
        (value % 0x100) as u64
    } else if width == 2 {
        (value % 0x1_0000) as u64
    } else if width == 4 {
        (value % 0x1_0000_0000) as u64
    } else {
        value
    }
}

/// `a + b` as a 64-bit word.
pub fn sum64(a: u64, b: u64) -> (r: u64)
    ensures
        r == wrap64(a + b),
{
    proof {
        crate::sysv::loader::lemma_mod_near(a + b, 0x1_0000_0000_0000_0000);
    }
    if a > u64::MAX - b {
        a - (u64::MAX - b) - 1
    } else {
        a + b
    }
}

/// `a - b` as a 64-bit word.
pub fn diff64(a: u64, b: u64) -> (r: u64)
    ensures
        r == wrap64(a - b),
{
    proof {
        crate::sysv::loader::lemma_mod_near(a - b, 0x1_0000_0000_0000_0000);
    }
    if a >= b {
        a - b
    } else {
        u64::MAX - (b - a) + 1
    }
}

/// `a + b` as a 64-bit word, for a signed `b`.
pub fn sum64_signed(a: u64, b: i64) -> (r: u64)
    ensures
        r == wrap64(a + b),
{
    if b >= 0 {
        sum64(a, b as u64)
    } else if b == i64::MIN {
        diff64(a, 0x8000_0000_0000_0000)
    } else {
        diff64(a, (-b) as u64)
    }
}

/// The low `width` bytes of `value`.
pub fn keep_low(value: u64, width: usize) -> (r: u64)
    ensures
        r == low_bytes(value, width),
{
    if width == 1 {
        value % 0x100
    } else if width == 2 {
        value % 0x1_0000
    } else if width == 4 {
        value % 0x1_0000_0000
    } else {
        value
    }
}

// ———————————————————————————————— Actions ————————————————————————————————— //
/// What a relocation asks to be done to memory.
#[derive(Debug, Clone, Copy, PartialEq, Eq, Structural)]
pub enum RelocAction {
    /// Write the low `width` bytes of `value` at `addr`, least significant byte first. The
    /// address need not be aligned.
    Write { addr: usize, value: u64, width: usize },
    /// Copy `len` bytes from `src` to `dst`.
    Copy { src: usize, dst: usize, len: usize },
    /// Call the function at `resolver`, which takes no argument, and write the 64-bit word that
    /// it returns at `addr`.
    Resolve { resolver: usize, addr: usize },
}

// ———————————————————————————— Symbols of records ————————————————————————————— //
/// The name of symbol number `sym` of the dynamic symbol table that the relocation section
/// `section` is linked to.
pub open spec fn spec_reloc_name(manifold: &Manifold, section: &Section, sym: u32) -> Result<Seq<u8>, FoldError> {
    match section.spec_linked(manifold) {
        Err(e) => Err(e),
        Ok(table) => if table.tag != SHT_DYNSYM {
            Err(FoldError::InvalidSectionCast { expected: SHT_DYNSYM, actual: table.tag })
        } else if sym as nat >= table.entries::<Sym>().len() {
            Err(FoldError::OutOfBounds)
        } else {
            spec_symbol_name(&table, table.entries::<Sym>()[sym as int], manifold)
        },
    }
}

/// The name of symbol number `sym` of the dynamic symbol table that the relocation section
/// `section` is linked to.
pub fn reloc_name<'a>(manifold: &'a Manifold, section: Handle<Section>, sym: u32) -> (r: Result<&'a [u8], FoldError>)
    requires
        manifold.wf(),
        manifold.sections.contains(section),
    ensures
        r matches Ok(name) ==> spec_reloc_name(
            manifold,
            &manifold.sections@[section.index() as int],
            sym,
        ) == Ok::<Seq<u8>, FoldError>(name@),
        r matches Err(e) ==> spec_reloc_name(
            manifold,
            &manifold.sections@[section.index() as int],
            sym,
        ) == Err::<Seq<u8>, FoldError>(e),
{
    let s = manifold.sections.index(section);
    assert(manifold.section_owned(section.index() as int));
    let linked = s.linked(manifold)?;
    proof {
        let obj = manifold.objects@[s.obj.index() as int];
        let h = obj.sections@[s.link as int];
        assert(manifold.sections.contains(h));
        assert(manifold.section_owned(h.index() as int));
    }
    let table = linked.as_dynamic_symbol_table()?;
    table.get_symbol_name(sym as usize, manifold)
}

/// The address `S` of symbol number `sym` for the records of `section`.
///
/// A symbol whose name cannot be read, whose name is empty, or that no loaded object defines
/// has address 0. Else the address is the base of the object that defines the symbol plus the
/// symbol's value; an object without a base gives an error.
pub open spec fn spec_symbol_address(manifold: &Manifold, section: &Section, sym: u32) -> Result<u64, SysvError> {
    match spec_reloc_name(manifold, section, sym) {
        Err(_) => Ok(0),
        Ok(name) => if name.len() == 0 {
            Ok(0)
        } else {
            match resolve(manifold, name, section.obj) {
                Lookup::Found(c, s) => match spec_base_of(&manifold.objects@[c.obj.index() as int]) {
                    Some(b) => Ok(wrap64(b + s.st_value)),
                    None => Err(SysvError::RelaSectionWithoutVirtualAdresses),
                },
                _ => Ok(0),
            }
        },
    }
}

/// The address `S` of symbol number `sym` for the records of `section`.
pub fn symbol_address(manifold: &Manifold, section: Handle<Section>, sym: u32) -> (r: Result<u64, SysvError>)
    requires
        manifold.wf(),
        manifold.sections.contains(section),
    ensures
        r == spec_symbol_address(manifold, &manifold.sections@[section.index() as int], sym),
{
    assert(manifold.section_owned(section.index() as int));
    let local = manifold.sections.index(section).obj;
    match reloc_name(manifold, section, sym) {
        Err(_) => Ok(0),
        Ok(name) => {
            if name.len() == 0 {
                return Ok(0);
            }
            match manifold.find_symbol(name, local) {
                Ok((c, s)) => match base_of(manifold.objects.index(c.obj)) {
                    Some(b) => Ok(sum64(b as u64, s.st_value)),
                    None => Err(SysvError::RelaSectionWithoutVirtualAdresses),
                },
                Err(_) => Ok(0),
            }
        },
    }
}

/// The base of `obj`, or 0 where it has none.
pub open spec fn base_or_zero(obj: &Object) -> usize {
    match spec_base_of(obj) {
        Some(b) => b,
        None => 0,
    }
}

/// Where a `COPY` relocation of `name` in the object `skip` copies from, and how many bytes:
/// the symbol of that name of the first object from number `from` on, other than `skip`,
/// whose symbol tables define it.
pub open spec fn copy_source_from(manifold: &Manifold, name: Seq<u8>, skip: Handle<Object>, from: int) -> Option<
    (usize, usize),
>
    decreases manifold.objects@.len() - from,
{
    if from < 0 || from >= manifold.objects@.len() {
        None
    } else {
        let obj = &manifold.objects@[from];
        match spec_find_symbol(obj, manifold, name, SHT_SYMTAB) {
            Lookup::Found(_, sym) if from != skip.index() => Some(
                (
                    wrapping_sum(base_or_zero(obj) as int, (sym.st_value as usize) as int),
                    sym.st_size as usize,
                ),
            ),
            _ => copy_source_from(manifold, name, skip, from + 1),
        }
    }
}

/// Where a `COPY` relocation of `name` in the object `skip` copies from, and how many bytes.
pub fn copy_source(manifold: &Manifold, name: &[u8], skip: Handle<Object>) -> (r: Option<(usize, usize)>)
    requires
        manifold.wf(),
    ensures
        r == copy_source_from(manifold, name@, skip, 0),
{
    let mut it = manifold.objects.enumerate();
    loop
        invariant
            manifold.wf(),
            it.arena() == &manifold.objects,
            it.position() <= manifold.objects@.len(),
            copy_source_from(manifold, name@, skip, 0) == copy_source_from(
                manifold,
                name@,
                skip,
                it.position() as int,
            ),
        decreases manifold.objects@.len() - it.position(),
    {
        let ghost at = it.position() as int;
        match it.next() {
            None => {
                return None;
            },
            Some((h, obj)) => {
                assert(manifold.object_consistent(at));
                if h.idx() != skip.idx() {
                    match obj.find_symbol(name, manifold) {
                        Ok((_, sym)) => {
                            let base = match base_of(obj) {
                                Some(b) => b,
                                None => 0,
                            };
                            return Some(
                                (address_sum(base, sym.st_value as usize), sym.st_size as usize),
                            );
                        },
                        Err(_) => {},
                    }
                }
            },
        }
    }
}

/// What a `GLOB_DAT` relocation of `name` writes after the scan of all objects: the address
/// of the symbol of that name in the first object from number `from` on whose dynamic symbol
/// tables define it with a value other than 0. The address is the object's base, or 0 where it
/// has none, plus the symbol's value.
pub open spec fn glob_dat_from(manifold: &Manifold, name: Seq<u8>, from: int) -> Option<u64>
    decreases manifold.objects@.len() - from,
{
    if from < 0 || from >= manifold.objects@.len() {
        None
    } else {
        let obj = &manifold.objects@[from];
        match spec_find_symbol(obj, manifold, name, SHT_DYNSYM) {
            Lookup::Found(_, sym) if sym.st_value != 0 => Some(
                wrap64(base_or_zero(obj) + sym.st_value),
            ),
            _ => glob_dat_from(manifold, name, from + 1),
        }
    }
}

/// What a `GLOB_DAT` relocation of `name` writes after the scan of all objects.
pub fn glob_dat_target(manifold: &Manifold, name: &[u8]) -> (r: Option<u64>)
    requires
        manifold.wf(),
    ensures
        r == glob_dat_from(manifold, name@, 0),
{
    let mut it = manifold.objects.enumerate();
    loop
        invariant
            manifold.wf(),
            it.arena() == &manifold.objects,
            it.position() <= manifold.objects@.len(),
            glob_dat_from(manifold, name@, 0) == glob_dat_from(
                manifold,
                name@,
                it.position() as int,
            ),
        decreases manifold.objects@.len() - it.position(),
    {
        let ghost at = it.position() as int;
        match it.next() {
            None => {
                return None;
            },
            Some((_, obj)) => {
                assert(manifold.object_consistent(at));
                match obj.find_dynamic_symbol(name, manifold) {
                    Ok((_, sym)) => {
                        if sym.st_value != 0 {
                            let base = match base_of(obj) {
                                Some(b) => b,
                                None => 0,
                            };
                            return Some(sum64(base as u64, sym.st_value));
                        }
                    },
                    Err(_) => {},
                }
            },
        }
    }
}

// —————————————————————————————— One record ———————————————————————————————— //
/// Whether `t` is a relocation type of thread-local storage, which the relocator leaves to
/// the modules of thread-local storage.
pub open spec fn is_tls_type(t: u32) -> bool {
    t == R_X86_64_DTPMOD64 || t == R_X86_64_DTPOFF32 || t == R_X86_64_DTPOFF64 || t
        == R_X86_64_TPOFF32 || t == R_X86_64_TPOFF64 || t == R_X86_64_GOTTPOFF || t
        == R_X86_64_TLSGD || t == R_X86_64_TLSLD
}

/// One write of `width` bytes of the symbol's address plus the addend.
pub open spec fn write_symbol(
    manifold: &Manifold,
    section: &Section,
    addr: usize,
    sym: u32,
    addend: int,
    width: usize,
) -> Result<Seq<RelocAction>, SysvError> {
    match spec_symbol_address(manifold, section, sym) {
        Err(e) => Err(e),
        Ok(s) => Ok(
            seq![RelocAction::Write { addr, value: low_bytes(wrap64(s + addend), width), width }],
        ),
    }
}

/// What the record `rela` of `section` asks for, in an object of base `base`.
///
/// With `B` the base, `A` the addend, `S` the address of the record's symbol, and the record's
/// place at `B + r_offset`:
/// - `NONE` and the types of thread-local storage ask for nothing;
/// - `64`, `32`, `32S`, `16` and `8` write `S + A` in 8, 4, 4, 2 and 1 bytes;
/// - `JUMP_SLOT` writes `S` in 8 bytes;
/// - `RELATIVE` writes `B + A` in 8 bytes;
/// - `IRELATIVE` has the function at `B + A` called and its result written;
/// - `COPY` copies the symbol from the first other object that defines it;
/// - `GLOB_DAT` writes `S` in 8 bytes, and then the address that the scan of all objects
///   gives, where it gives one;
/// - any other type is an error.
#[verifier::opaque]
pub open spec fn spec_relocate(manifold: &Manifold, section: &Section, base: usize, rela: Rela) -> Result<
    Seq<RelocAction>,
    SysvError,
> {
    let addr = wrapping_sum(base as int, (rela.r_offset as usize) as int);
    let t = spec_reloc_type(rela.r_info);
    let sym = spec_reloc_sym(rela.r_info);
    let a = rela.r_addend as int;
    if t == R_X86_64_NONE || is_tls_type(t) {
        Ok(Seq::empty())
    } else if t == R_X86_64_64 {
        write_symbol(manifold, section, addr, sym, a, 8)
    } else if t == R_X86_64_32 || t == R_X86_64_32S {
        write_symbol(manifold, section, addr, sym, a, 4)
    } else if t == R_X86_64_16 {
        write_symbol(manifold, section, addr, sym, a, 2)
    } else if t == R_X86_64_8 {
        write_symbol(manifold, section, addr, sym, a, 1)
    } else if t == R_X86_64_JUMP_SLOT {
        write_symbol(manifold, section, addr, sym, 0, 8)
    } else if t == R_X86_64_RELATIVE {
        Ok(seq![RelocAction::Write { addr, value: wrap64(base + a), width: 8 }])
    } else if t == R_X86_64_IRELATIVE {
        Ok(seq![RelocAction::Resolve { resolver: wrap64(base + a) as usize, addr }])
    } else if t == R_X86_64_COPY {
        match spec_reloc_name(manifold, section, sym) {
            Err(e) => Err(SysvError::FoldError(e)),
            Ok(name) => match copy_source_from(manifold, name, section.obj, 0) {
                Some((src, len)) => Ok(seq![RelocAction::Copy { src, dst: addr, len }]),
                None => Ok(Seq::empty()),
            },
        }
    } else if t == R_X86_64_GLOB_DAT {
        match write_symbol(manifold, section, addr, sym, 0, 8) {
            Err(e) => Err(e),
            Ok(head) => match spec_reloc_name(manifold, section, sym) {
                Err(e) => Err(SysvError::FoldError(e)),
                Ok(name) => match glob_dat_from(manifold, name, 0) {
                    Some(value) => Ok(head + seq![RelocAction::Write { addr, value, width: 8 }]),
                    None => Ok(head),
                },
            },
        }
    } else {
        Err(SysvError::UnknownRelocation(t))
    }
}

/// Whether `t` is a relocation type of thread-local storage.
pub fn tls_type(t: u32) -> (b: bool)
    ensures
        b == is_tls_type(t),
{
    t == R_X86_64_DTPMOD64 || t == R_X86_64_DTPOFF32 || t == R_X86_64_DTPOFF64 || t
        == R_X86_64_TPOFF32 || t == R_X86_64_TPOFF64 || t == R_X86_64_GOTTPOFF || t
        == R_X86_64_TLSGD || t == R_X86_64_TLSLD
}

/// One write of `width` bytes of the symbol's address plus the addend, appended to `out`.
fn push_symbol_write(
    out: &mut Vec<RelocAction>,
    manifold: &Manifold,
    section: Handle<Section>,
    addr: usize,
    sym: u32,
    addend: i64,
    width: usize,
) -> (r: Result<(), SysvError>)
    requires
        manifold.wf(),
        manifold.sections.contains(section),
    ensures
        match write_symbol(
            manifold,
            &manifold.sections@[section.index() as int],
            addr,
            sym,
            addend as int,
            width,
        ) {
            Err(e) => r == Err::<(), SysvError>(e) && final(out)@ == old(out)@,
            Ok(actions) => r == Ok::<(), SysvError>(()) && final(out)@ == old(out)@ + actions,
        },
{
    match symbol_address(manifold, section, sym) {
        Err(e) => Err(e),
        Ok(s) => {
            let value = keep_low(sum64_signed(s, addend), width);
            out.push(RelocAction::Write { addr, value, width });
            assert(out@ =~= old(out)@ + seq![RelocAction::Write { addr, value, width }]);
            Ok(())
        },
    }
}

/// Appends to `out` what the record `rela` of `section` asks for, in an object of base `base`.
/// Where the record gives an error, `out` is left as it was.
pub fn relocate(
    out: &mut Vec<RelocAction>,
    manifold: &Manifold,
    section: Handle<Section>,
    base: usize,
    rela: &Rela,
) -> (r: Result<(), SysvError>)
    requires
        manifold.wf(),
        manifold.sections.contains(section),
    ensures
        match spec_relocate(manifold, &manifold.sections@[section.index() as int], base, *rela) {
            Err(e) => r == Err::<(), SysvError>(e) && final(out)@ == old(out)@,
            Ok(actions) => r == Ok::<(), SysvError>(()) && final(out)@ == old(out)@ + actions,
        },
{
    reveal(spec_relocate);
    let addr = address_sum(base, rela.r_offset as usize);
    let (t, sym) = split_info(rela.r_info);
    let a = rela.r_addend;
    assert(manifold.section_owned(section.index() as int));
    if t == R_X86_64_NONE || tls_type(t) {
        assert(out@ =~= old(out)@ + Seq::<RelocAction>::empty());
        Ok(())
    } else if t == R_X86_64_64 {
        push_symbol_write(out, manifold, section, addr, sym, a, 8)
    } else if t == R_X86_64_32 || t == R_X86_64_32S {
        push_symbol_write(out, manifold, section, addr, sym, a, 4)
    } else if t == R_X86_64_16 {
        push_symbol_write(out, manifold, section, addr, sym, a, 2)
    } else if t == R_X86_64_8 {
        push_symbol_write(out, manifold, section, addr, sym, a, 1)
    } else if t == R_X86_64_JUMP_SLOT {
        push_symbol_write(out, manifold, section, addr, sym, 0, 8)
    } else if t == R_X86_64_RELATIVE {
        let value = sum64_signed(base as u64, a);
        out.push(RelocAction::Write { addr, value, width: 8 });
        assert(out@ =~= old(out)@ + seq![RelocAction::Write { addr, value, width: 8 }]);
        Ok(())
    } else if t == R_X86_64_IRELATIVE {
        let resolver = sum64_signed(base as u64, a) as usize;
        out.push(RelocAction::Resolve { resolver, addr });
        assert(out@ =~= old(out)@ + seq![RelocAction::Resolve { resolver, addr }]);
        Ok(())
    } else if t == R_X86_64_COPY {
        let local = manifold.sections.index(section).obj;
        match reloc_name(manifold, section, sym) {
            Err(e) => Err(SysvError::FoldError(e)),
            Ok(name) => {
                match copy_source(manifold, name, local) {
                    Some((src, len)) => {
                        out.push(RelocAction::Copy { src, dst: addr, len });
                        assert(out@ =~= old(out)@ + seq![
                            RelocAction::Copy { src, dst: addr, len },
                        ]);
                    },
                    None => {
                        assert(out@ =~= old(out)@ + Seq::<RelocAction>::empty());
                    },
                }
                Ok(())
            },
        }
    } else if t == R_X86_64_GLOB_DAT {
        let mut staged: Vec<RelocAction> = Vec::new();
        match push_symbol_write(&mut staged, manifold, section, addr, sym, 0, 8) {
            Err(e) => {
                return Err(e);
            },
            Ok(_) => {},
        }
        match reloc_name(manifold, section, sym) {
            Err(e) => Err(SysvError::FoldError(e)),
            Ok(name) => {
                match glob_dat_target(manifold, name) {
                    Some(value) => {
                        staged.push(RelocAction::Write { addr, value, width: 8 });
                    },
                    None => {},
                }
                let mut k: usize = 0;
                while k < staged.len()
                    invariant
                        k <= staged@.len(),
                        out@ == old(out)@ + staged@.subrange(0, k as int),
                    decreases staged@.len() - k,
                {
                    out.push(staged[k]);
                    assert(out@ =~= old(out)@ + staged@.subrange(0, k + 1));
                    k = k + 1;
                }
                assert(staged@.subrange(0, staged@.len() as int) =~= staged@);
                Ok(())
            },
        }
    } else {
        Err(SysvError::UnknownRelocation(t))
    }
}

// ——————————————————————————————— A section ———————————————————————————————— //
/// What the records `relas` from number `from` on ask for, in order. The first record that
/// gives an error ends the list with that error.
pub open spec fn relocate_from(
    manifold: &Manifold,
    section: &Section,
    base: usize,
    relas: Seq<Rela>,
    from: int,
) -> Result<Seq<RelocAction>, SysvError>
    decreases relas.len() - from,
{
    if from < 0 || from >= relas.len() {
        Ok(Seq::empty())
    } else {
        match spec_relocate(manifold, section, base, relas[from]) {
            Err(e) => Err(e),
            Ok(head) => match relocate_from(manifold, section, base, relas, from + 1) {
                Err(e) => Err(e),
                Ok(rest) => Ok(head + rest),
            },
        }
    }
}

/// What the records `relas` from number `from` on ask for, in order, up to the first record
/// that gives an error.
pub open spec fn relocated_before_error(
    manifold: &Manifold,
    section: &Section,
    base: usize,
    relas: Seq<Rela>,
    from: int,
) -> Seq<RelocAction>
    decreases relas.len() - from,
{
    if from < 0 || from >= relas.len() {
        Seq::empty()
    } else {
        match spec_relocate(manifold, section, base, relas[from]) {
            Err(_) => Seq::empty(),
            Ok(head) => head + relocated_before_error(manifold, section, base, relas, from + 1),
        }
    }
}

/// What the relocation section `section` of the object `obj` asks for before its first record
/// that gives an error: nothing for an object without a base.
pub open spec fn spec_processed(manifold: &Manifold, obj: &Object, section: &Section) -> Seq<RelocAction> {
    match spec_base_of(obj) {
        None => Seq::empty(),
        Some(base) => relocated_before_error(manifold, section, base, section.entries::<Rela>(), 0),
    }
}

/// What the relocation section `section` of the object `obj` asks for.
///
/// An object without a base gives `RelaSectionWithoutVirtualAdresses`.
pub open spec fn spec_process_reloc(manifold: &Manifold, obj: &Object, section: &Section) -> Result<
    Seq<RelocAction>,
    SysvError,
> {
    match spec_base_of(obj) {
        None => Err(SysvError::RelaSectionWithoutVirtualAdresses),
        Some(base) => relocate_from(manifold, section, base, section.entries::<Rela>(), 0),
    }
}

/// What `acc` followed by `rest` is, where `rest` is no error.
pub open spec fn prepend(acc: Seq<RelocAction>, rest: Result<Seq<RelocAction>, SysvError>) -> Result<
    Seq<RelocAction>,
    SysvError,
> {
    match rest {
        Err(e) => Err(e),
        Ok(tail) => Ok(acc + tail),
    }
}

/// Appends to `out` the actions that the relocation section `section` of the object `obj` asks
/// for, in the order of its records. Where a record gives an error, the error is returned and
/// the actions of the records before it were appended.
pub fn process_reloc(
    out: &mut Vec<RelocAction>,
    obj: Handle<Object>,
    section: Handle<Section>,
    manifold: &Manifold,
) -> (r: Result<(), SysvError>)
    requires
        manifold.wf(),
        manifold.objects.contains(obj),
        manifold.sections.contains(section),
    ensures
        match spec_process_reloc(
            manifold,
            &manifold.objects@[obj.index() as int],
            &manifold.sections@[section.index() as int],
        ) {
            Err(e) => r == Err::<(), SysvError>(e),
            Ok(actions) => r == Ok::<(), SysvError>(()) && final(out)@ == old(out)@ + actions,
        },
        final(out)@ == old(out)@ + spec_processed(
            manifold,
            &manifold.objects@[obj.index() as int],
            &manifold.sections@[section.index() as int],
        ),
        old(out)@.len() <= final(out)@.len(),
        final(out)@.subrange(0, old(out)@.len() as int) == old(out)@,
{
    let base = match base_of(manifold.objects.index(obj)) {
        Some(b) => b,
        None => {
            assert(out@.subrange(0, old(out)@.len() as int) =~= old(out)@);
            assert(out@ =~= old(out)@ + Seq::<RelocAction>::empty());
            return Err(SysvError::RelaSectionWithoutVirtualAdresses);
        },
    };
    let s = manifold.sections.index(section);
    if s.entity_size != Rela::size() {
        assert(out@ =~= old(out)@ + Seq::<RelocAction>::empty());
        assert(out@.subrange(0, old(out)@.len() as int) =~= old(out)@);
        return Ok(());
    }
    let mut it = ElfItemIterator::<Rela>::from_section(s);
    let ghost relas = s.entries::<Rela>();
    let ghost mut k: int = 0;
    let ghost mut acc: Seq<RelocAction> = Seq::empty();
    assert(relas.subrange(0, relas.len() as int) =~= relas);
    assert(out@ =~= old(out)@ + acc);
    proof {
        match relocate_from(manifold, s, base, relas, 0) {
            Ok(tail) => {
                assert(acc + tail =~= tail);
            },
            Err(_) => {},
        }
        assert(acc + relocated_before_error(manifold, s, base, relas, 0)
            =~= relocated_before_error(manifold, s, base, relas, 0));
    }
    loop
        invariant
            manifold.wf(),
            manifold.sections.contains(section),
            manifold.objects.contains(obj),
            relocated_before_error(manifold, s, base, relas, 0) == acc + relocated_before_error(
                manifold,
                s,
                base,
                relas,
                k,
            ),
            spec_base_of(&manifold.objects@[obj.index() as int]) == Some(base),
            s.entity_size == Rela::spec_size(),
            *s == manifold.sections@[section.index() as int],
            it.item_size() == Rela::spec_size(),
            relas == s.entries::<Rela>(),
            0 <= k <= relas.len(),
            it.remaining() == relas.subrange(k, relas.len() as int),
            out@ == old(out)@ + acc,
            relocate_from(manifold, s, base, relas, 0) == prepend(
                acc,
                relocate_from(manifold, s, base, relas, k),
            ),
        decreases it.remaining().len(),
    {
        assert(relas.subrange(k, relas.len() as int).len() == relas.len() - k);
        match it.next() {
            None => {
                assert(k == relas.len());
                assert(acc + Seq::<RelocAction>::empty() =~= acc);
                assert(out@.subrange(0, old(out)@.len() as int) =~= old(out)@);
                return Ok(());
            },
            Some(rela) => {
                assert(rela == relas[k]);
                assert(relas.subrange(k, relas.len() as int).drop_first() =~= relas.subrange(
                    k + 1,
                    relas.len() as int,
                ));
                let ghost before = out@;
                match relocate(out, manifold, section, base, &rela) {
                    Err(e) => {
                        assert(out@.subrange(0, old(out)@.len() as int) =~= old(out)@);
                        assert(acc + Seq::<RelocAction>::empty() =~= acc);
                        return Err(e);
                    },
                    Ok(_) => {
                        proof {
                            let head = spec_relocate(manifold, s, base, rela)->Ok_0;
                            match relocate_from(manifold, s, base, relas, k + 1) {
                                Ok(tail) => {
                                    assert(acc + (head + tail) =~= (acc + head) + tail);
                                },
                                Err(_) => {},
                            }
                            let rest = relocated_before_error(manifold, s, base, relas, k + 1);
                            assert(acc + (head + rest) =~= (acc + head) + rest);
                            assert(out@ =~= old(out)@ + (acc + head));
                            acc = acc + head;
                            k = k + 1;
                        }
                    },
                }
            },
        }
    }
}

// ——————————————————————————————— An object ———————————————————————————————— //
/// Relocator of System V objects. It remembers the objects that it has relocated, so that an
/// object that several others depend on is relocated once.
#[derive(Debug)]
pub struct SysvReloc {
    relocated: Vec<Handle<Object>>,
}

/// Whether `h` is one of `handles`.
pub open spec fn holds(handles: Seq<Handle<Object>>, h: Handle<Object>) -> bool {
    exists|i: int| 0 <= i < handles.len() && (#[trigger] handles[i]).index() == h.index()
}

/// Whether `h` is one of `handles`.
pub fn contains_handle(handles: &Vec<Handle<Object>>, h: Handle<Object>) -> (b: bool)
    ensures
        b == holds(handles@, h),
{
    let mut i: usize = 0;
    while i < handles.len()
        invariant
            i <= handles@.len(),
            forall|j: int| 0 <= j < i ==> (#[trigger] handles@[j]).index() != h.index(),
        decreases handles@.len() - i,
    {
        if handles[i].idx() == h.idx() {
            return true;
        }
        i = i + 1;
    }
    false
}

/// How far a search along dependency edges has come: the objects entered, and the objects
/// left, each in the order in which that happened.
pub struct Search {
    pub entered: Seq<Handle<Object>>,
    pub left: Seq<Handle<Object>>,
}

/// The search from `obj` along dependency edges, continued from `state`.
///
/// An object that was entered before, or that the manifold does not hold, is passed over.
/// Else the object is entered, the search goes through its dependencies, from the last to the
/// first, and then the object is left. So an object is left after everything that it depends
/// on, and an object that was entered is not entered again, which ends the search on
/// dependencies that go in a circle. `depth` bounds the length of a chain of dependencies; a
/// chain of objects that are all different is never longer than the number of objects.
pub open spec fn visit(manifold: &Manifold, obj: Handle<Object>, state: Search, depth: nat) -> Search
    decreases depth, 0nat, 0nat,
{
    if depth == 0 || holds(state.entered, obj) || !manifold.objects.contains(obj) {
        state
    } else {
        let deps = manifold.objects@[obj.index() as int].dependencies@;
        let after = visit_deps(
            manifold,
            deps,
            deps.len() as int,
            Search { entered: state.entered.push(obj), left: state.left },
            (depth - 1) as nat,
        );
        Search { entered: after.entered, left: after.left.push(obj) }
    }
}

/// The search from the first `upto` of the dependencies `deps`, from the last to the first,
/// continued from `state`.
pub open spec fn visit_deps(
    manifold: &Manifold,
    deps: Seq<Handle<Object>>,
    upto: int,
    state: Search,
    depth: nat,
) -> Search
    decreases depth, 1nat, upto,
{
    if upto <= 0 || upto > deps.len() {
        state
    } else {
        visit_deps(manifold, deps, upto - 1, visit(manifold, deps[upto - 1], state, depth), depth)
    }
}

impl SysvReloc {
    /// The objects relocated so far, in the order in which they were.
    pub closed spec fn done(&self) -> Seq<Handle<Object>> {
        self.relocated@
    }

    pub fn new() -> (r: Self)
        ensures
            r.done().len() == 0,
    {
        Self { relocated: Vec::new() }
    }

    /// Name of the module.
    pub fn name(&self) -> (n: &'static str)
        ensures
            n == "sysv-reloc-lib",
    {
        "sysv-reloc-lib"
    }

    /// Whether the object `obj` was relocated.
    pub fn is_relocated(&self, obj: Handle<Object>) -> (b: bool)
        ensures
            b == holds(self.done(), obj),
    {
        contains_handle(&self.relocated, obj)
    }

    /// Continues the search from `obj`; see [`visit`].
    fn mark(
        manifold: &Manifold,
        obj: Handle<Object>,
        entered: &mut Vec<Handle<Object>>,
        left: &mut Vec<Handle<Object>>,
        depth: usize,
    )
        requires
            manifold.wf(),
        ensures
            (Search { entered: final(entered)@, left: final(left)@ }) == visit(
                manifold,
                obj,
                Search { entered: old(entered)@, left: old(left)@ },
                depth as nat,
            ),
        decreases depth, 0nat, 0nat,
    {
        if depth == 0 || contains_handle(entered, obj) {
            return ;
        }
        match manifold.objects.get(obj) {
            None => {},
            Some(object) => {
                entered.push(obj);
                Self::mark_deps(
                    manifold,
                    object,
                    object.dependencies.len(),
                    entered,
                    left,
                    depth - 1,
                );
                left.push(obj);
            },
        }
    }

    /// Continues the search from the first `upto` dependencies of `object`; see
    /// [`visit_deps`].
    fn mark_deps(
        manifold: &Manifold,
        object: &Object,
        upto: usize,
        entered: &mut Vec<Handle<Object>>,
        left: &mut Vec<Handle<Object>>,
        depth: usize,
    )
        requires
            manifold.wf(),
            upto <= object.dependencies@.len(),
        ensures
            (Search { entered: final(entered)@, left: final(left)@ }) == visit_deps(
                manifold,
                object.dependencies@,
                upto as int,
                Search { entered: old(entered)@, left: old(left)@ },
                depth as nat,
            ),
        decreases depth, 1nat, upto,
    {
        if upto == 0 {
            return ;
        }
        Self::mark(manifold, object.dependencies[upto - 1], entered, left, depth);
        Self::mark_deps(manifold, object, upto - 1, entered, left, depth);
    }

    /// The order in which the objects that `obj` depends on, and `obj` itself, are relocated:
    /// the objects that the search from `obj` reaches, in the order in which the search leaves
    /// them. Every object comes after the objects that it depends on, unless they depend on
    /// each other in a circle, and `obj` comes last.
    pub open spec fn spec_order(manifold: &Manifold, obj: Handle<Object>) -> Seq<Handle<Object>> {
        visit(
            manifold,
            obj,
            Search { entered: Seq::empty(), left: Seq::empty() },
            manifold.objects@.len(),
        ).left
    }

    /// The order in which the objects that `obj` depends on, and `obj` itself, are relocated.
    pub fn order(manifold: &Manifold, obj: Handle<Object>) -> (r: Vec<Handle<Object>>)
        requires
            manifold.wf(),
        ensures
            r@ == Self::spec_order(manifold, obj),
    {
        let mut entered: Vec<Handle<Object>> = Vec::new();
        let mut left: Vec<Handle<Object>> = Vec::new();
        Self::mark(manifold, obj, &mut entered, &mut left, manifold.objects.len());
        left
    }

    /// Appends to `out` the actions of all relocation sections of the object `obj`, in the
    /// order of the object's sections.
    fn relocate_object(out: &mut Vec<RelocAction>, obj: Handle<Object>, manifold: &Manifold) -> (r: Result<
        (),
        SysvError,
    >)
        requires
            manifold.wf(),
            manifold.objects.contains(obj),
        ensures
            match sections_from(manifold, obj, 0) {
                Err(e) => r == Err::<(), SysvError>(e),
                Ok(actions) => r == Ok::<(), SysvError>(()),
            },
            final(out)@ == old(out)@ + sections_before_error(manifold, obj, 0),
    {
        let object = manifold.objects.index(obj);
        assert(manifold.object_consistent(obj.index() as int));
        let ghost mut acc: Seq<RelocAction> = Seq::empty();
        let mut k: usize = 0;
        assert(out@ =~= old(out)@ + acc);
        assert(acc + sections_before_error(manifold, obj, 0) =~= sections_before_error(
            manifold,
            obj,
            0,
        ));
        while k < object.sections.len()
            invariant
                manifold.wf(),
                manifold.objects.contains(obj),
                manifold.object_consistent(obj.index() as int),
                *object == manifold.objects@[obj.index() as int],
                k <= object.sections@.len(),
                out@ == old(out)@ + acc,
                sections_from(manifold, obj, 0) is Err ==> sections_from(manifold, obj, 0)
                    == sections_from(manifold, obj, k as int),
                sections_from(manifold, obj, 0) is Ok ==> sections_from(manifold, obj, k as int)
                    is Ok,
                sections_before_error(manifold, obj, 0) == acc + sections_before_error(
                    manifold,
                    obj,
                    k as int,
                ),
            decreases object.sections@.len() - k,
        {
            let h = object.sections[k];
            assert(manifold.sections.contains(h));
            if manifold.sections.index(h).tag == SHT_RELA {
                let ghost head = spec_processed(
                    manifold,
                    object,
                    &manifold.sections@[h.index() as int],
                );
                let ghost rest = sections_before_error(manifold, obj, k + 1);
                match process_reloc(out, obj, h, manifold) {
                    Err(e) => {
                        assert(out@ =~= old(out)@ + (acc + head));
                        return Err(e);
                    },
                    Ok(_) => {
                        proof {
                            assert(acc + (head + rest) =~= (acc + head) + rest);
                            assert(out@ =~= old(out)@ + (acc + head));
                            acc = acc + head;
                        }
                    },
                }
            }
            k = k + 1;
        }
        assert(acc + Seq::<RelocAction>::empty() =~= acc);
        Ok(())
    }

    /// Relocates the object `obj` and, before it, the objects that it depends on, each of them
    /// once over the life of this relocator.
    ///
    /// Appends to `out` what must be done to memory, in order. The objects are taken in the
    /// order of [`SysvReloc::spec_order`]; one that this relocator has relocated before is
    /// passed over, the others are remembered as relocated. Where a record gives an error, the
    /// error is returned, and what the records before it ask for was appended.
    pub fn process_object(&mut self, out: &mut Vec<RelocAction>, obj: Handle<Object>, manifold: &Manifold) -> (r: Result<
        (),
        SysvError,
    >)
        requires
            manifold.wf(),
            manifold.objects.contains(obj),
        ensures
            match objects_from(manifold, Self::spec_order(manifold, obj), 0, old(self).done()) {
                Ok(actions) => r == Ok::<(), SysvError>(()) && final(out)@ == old(out)@ + actions,
                Err(e) => r == Err::<(), SysvError>(e),
            },
            final(out)@ == old(out)@ + objects_before_error(
                manifold,
                Self::spec_order(manifold, obj),
                0,
                old(self).done(),
            ),
            final(self).done() == done_after(
                manifold,
                Self::spec_order(manifold, obj),
                0,
                old(self).done(),
            ),
    {
        let order = Self::order(manifold, obj);
        let mut k: usize = 0;
        let ghost mut acc: Seq<RelocAction> = Seq::empty();
        proof {
            lemma_no_error_in_objects(manifold, order@, 0, self.done());
        }
        assert(out@ =~= old(out)@ + acc);
        assert(acc + objects_before_error(manifold, order@, 0, self.done())
            =~= objects_before_error(manifold, order@, 0, self.done()));
        while k < order.len()
            invariant
                manifold.wf(),
                k <= order@.len(),
                order@ == Self::spec_order(manifold, obj),
                out@ == old(out)@ + acc,
                objects_from(manifold, order@, 0, old(self).done()) is Err ==> objects_from(
                    manifold,
                    order@,
                    0,
                    old(self).done(),
                ) == objects_from(manifold, order@, k as int, self.done()),
                objects_from(manifold, order@, 0, old(self).done()) is Ok ==> objects_from(
                    manifold,
                    order@,
                    k as int,
                    self.done(),
                ) is Ok,
                objects_before_error(manifold, order@, 0, old(self).done()) == acc
                    + objects_before_error(manifold, order@, k as int, self.done()),
                done_after(manifold, order@, 0, old(self).done()) == done_after(
                    manifold,
                    order@,
                    k as int,
                    self.done(),
                ),
            decreases order@.len() - k,
        {
            let dep = order[k];
            if !contains_handle(&self.relocated, dep) {
                self.relocated.push(dep);
                if manifold.objects.get(dep).is_some() {
                    let ghost head = sections_before_error(manifold, dep, 0);
                    let ghost rest = objects_before_error(manifold, order@, k + 1, self.done());
                    match Self::relocate_object(out, dep, manifold) {
                        Err(e) => {
                            assert(head + Seq::<RelocAction>::empty() =~= head);
                            assert(out@ =~= old(out)@ + (acc + head));
                            return Err(e);
                        },
                        Ok(_) => {
                            proof {
                                assert(acc + (head + rest) =~= (acc + head) + rest);
                                assert(out@ =~= old(out)@ + (acc + head));
                                acc = acc + head;
                            }
                        },
                    }
                }
            }
            k = k + 1;
        }
        assert(acc + Seq::<RelocAction>::empty() =~= acc);
        Ok(())
    }
}

/// What the relocation sections of the object `obj` from its section number `from` on ask for
/// before the first record that gives an error.
pub open spec fn sections_before_error(manifold: &Manifold, obj: Handle<Object>, from: int) -> Seq<
    RelocAction,
>
    decreases manifold.objects@[obj.index() as int].sections@.len() - from,
{
    let object = &manifold.objects@[obj.index() as int];
    if from < 0 || from >= object.sections@.len() {
        Seq::empty()
    } else {
        let section = &manifold.sections@[object.sections@[from].index() as int];
        if section.tag != SHT_RELA {
            sections_before_error(manifold, obj, from + 1)
        } else if spec_process_reloc(manifold, object, section) is Err {
            spec_processed(manifold, object, section)
        } else {
            spec_processed(manifold, object, section) + sections_before_error(
                manifold,
                obj,
                from + 1,
            )
        }
    }
}

/// What the objects of `order` from number `from` on ask for before the first record that
/// gives an error, for a relocator that has relocated `done`.
pub open spec fn objects_before_error(
    manifold: &Manifold,
    order: Seq<Handle<Object>>,
    from: int,
    done: Seq<Handle<Object>>,
) -> Seq<RelocAction>
    decreases order.len() - from,
{
    if from < 0 || from >= order.len() {
        Seq::empty()
    } else if holds(done, order[from]) {
        objects_before_error(manifold, order, from + 1, done)
    } else if !manifold.objects.contains(order[from]) {
        objects_before_error(manifold, order, from + 1, done.push(order[from]))
    } else if sections_from(manifold, order[from], 0) is Err {
        sections_before_error(manifold, order[from], 0)
    } else {
        sections_before_error(manifold, order[from], 0) + objects_before_error(
            manifold,
            order,
            from + 1,
            done.push(order[from]),
        )
    }
}

/// What the relocation sections of the object `obj` from its section number `from` on ask for.
pub open spec fn sections_from(manifold: &Manifold, obj: Handle<Object>, from: int) -> Result<
    Seq<RelocAction>,
    SysvError,
>
    decreases manifold.objects@[obj.index() as int].sections@.len() - from,
{
    let object = &manifold.objects@[obj.index() as int];
    if from < 0 || from >= object.sections@.len() {
        Ok(Seq::empty())
    } else {
        let section = &manifold.sections@[object.sections@[from].index() as int];
        if section.tag != SHT_RELA {
            sections_from(manifold, obj, from + 1)
        } else {
            match spec_process_reloc(manifold, object, section) {
                Err(e) => Err(e),
                Ok(head) => prepend(head, sections_from(manifold, obj, from + 1)),
            }
        }
    }
}

/// What the objects of `order` from number `from` on ask for, for a relocator that has
/// relocated `done`: an object of `done` asks for nothing; another one is added to `done` and
/// asks for what its relocation sections ask for.
pub open spec fn objects_from(
    manifold: &Manifold,
    order: Seq<Handle<Object>>,
    from: int,
    done: Seq<Handle<Object>>,
) -> Result<Seq<RelocAction>, SysvError>
    decreases order.len() - from,
{
    if from < 0 || from >= order.len() {
        Ok(Seq::empty())
    } else if holds(done, order[from]) {
        objects_from(manifold, order, from + 1, done)
    } else if !manifold.objects.contains(order[from]) {
        objects_from(manifold, order, from + 1, done.push(order[from]))
    } else {
        match sections_from(manifold, order[from], 0) {
            Err(e) => Err(e),
            Ok(head) => prepend(
                head,
                objects_from(manifold, order, from + 1, done.push(order[from])),
            ),
        }
    }
}

/// The objects that a relocator remembers as relocated after it went through `order` from
/// number `from` on, having relocated `done` before: every object of `order` is added that was
/// not among them, up to and with the first object whose records give an error.
pub open spec fn done_after(
    manifold: &Manifold,
    order: Seq<Handle<Object>>,
    from: int,
    done: Seq<Handle<Object>>,
) -> Seq<Handle<Object>>
    decreases order.len() - from,
{
    if from < 0 || from >= order.len() {
        done
    } else if holds(done, order[from]) {
        done_after(manifold, order, from + 1, done)
    } else if manifold.objects.contains(order[from]) && sections_from(manifold, order[from], 0)
        is Err {
        done.push(order[from])
    } else {
        done_after(manifold, order, from + 1, done.push(order[from]))
    }
}

// —————————————————————————————————— Laws —————————————————————————————————— //
/// A `JUMP_SLOT` record whose symbol a loaded object defines writes the address of the
/// definition: the base of the defining object plus the symbol's value. That address is not 0
/// where the defining object has a base other than 0 and the sum fits a 64-bit word.
pub proof fn lemma_jump_slot_is_resolved(
    manifold: &Manifold,
    section: &Section,
    base: usize,
    rela: Rela,
    name: Seq<u8>,
    definer: Section,
    sym: Sym,
    definer_base: usize,
)
    requires
        spec_reloc_type(rela.r_info) == R_X86_64_JUMP_SLOT,
        spec_reloc_name(manifold, section, spec_reloc_sym(rela.r_info)) == Ok::<
            Seq<u8>,
            FoldError,
        >(name),
        name.len() > 0,
        resolve(manifold, name, section.obj) == Lookup::Found(definer, sym),
        spec_base_of(&manifold.objects@[definer.obj.index() as int]) == Some(definer_base),
        definer_base > 0,
        definer_base + sym.st_value <= u64::MAX,
    ensures
        spec_relocate(manifold, section, base, rela) == Ok::<Seq<RelocAction>, SysvError>(
            seq![
                RelocAction::Write {
                    addr: wrapping_sum(base as int, (rela.r_offset as usize) as int),
                    value: (definer_base + sym.st_value) as u64,
                    width: 8,
                },
            ],
        ),
        definer_base + sym.st_value != 0,
{
    reveal(spec_relocate);
    assert(wrap64(definer_base + sym.st_value) == definer_base + sym.st_value);
    assert(wrap64((definer_base + sym.st_value) as u64 + 0) == definer_base + sym.st_value);
}

/// Where no record of a section gives an error, what the records ask for before the first
/// error is all that they ask for.
pub proof fn lemma_no_error_in_section(
    manifold: &Manifold,
    section: &Section,
    base: usize,
    relas: Seq<Rela>,
    from: int,
)
    ensures
        relocate_from(manifold, section, base, relas, from) matches Ok(actions)
            ==> relocated_before_error(manifold, section, base, relas, from) == actions,
    decreases relas.len() - from,
{
    if 0 <= from < relas.len() {
        lemma_no_error_in_section(manifold, section, base, relas, from + 1);
    }
}

/// Where no record of an object gives an error, what its sections ask for before the first
/// error is all that they ask for.
pub proof fn lemma_no_error_in_object(manifold: &Manifold, obj: Handle<Object>, from: int)
    ensures
        sections_from(manifold, obj, from) matches Ok(actions) ==> sections_before_error(
            manifold,
            obj,
            from,
        ) == actions,
    decreases manifold.objects@[obj.index() as int].sections@.len() - from,
{
    let object = &manifold.objects@[obj.index() as int];
    if 0 <= from < object.sections@.len() {
        lemma_no_error_in_object(manifold, obj, from + 1);
        let section = &manifold.sections@[object.sections@[from].index() as int];
        match spec_base_of(object) {
            Some(base) => {
                lemma_no_error_in_section(manifold, section, base, section.entries::<Rela>(), 0);
            },
            None => {},
        }
    }
}

/// Where no record gives an error, what the objects ask for before the first error is all
/// that they ask for.
pub proof fn lemma_no_error_in_objects(
    manifold: &Manifold,
    order: Seq<Handle<Object>>,
    from: int,
    done: Seq<Handle<Object>>,
)
    ensures
        objects_from(manifold, order, from, done) matches Ok(actions) ==> objects_before_error(
            manifold,
            order,
            from,
            done,
        ) == actions,
    decreases order.len() - from,
{
    if 0 <= from < order.len() {
        lemma_no_error_in_objects(manifold, order, from + 1, done);
        lemma_no_error_in_objects(manifold, order, from + 1, done.push(order[from]));
        lemma_no_error_in_object(manifold, order[from], 0);
    }
}

/// Whether the actions `part` stand together, in their order, in `all` from position `at` on.
pub open spec fn stands_at(all: Seq<RelocAction>, part: Seq<RelocAction>, at: int) -> bool {
    &&& 0 <= at
    &&& at + part.len() <= all.len()
    &&& all.subrange(at, at + part.len()) == part
}

/// Where the records of a section give no error, what each record asks for is carried out:
/// the actions of record number `i` stand together, in their order, among the actions of the
/// section.
pub proof fn lemma_record_is_carried_out(
    manifold: &Manifold,
    section: &Section,
    base: usize,
    relas: Seq<Rela>,
    from: int,
    i: int,
)
    requires
        0 <= from <= i < relas.len(),
        relocate_from(manifold, section, base, relas, from) is Ok,
    ensures
        spec_relocate(manifold, section, base, relas[i]) is Ok,
        exists|at: int|
            stands_at(
                relocate_from(manifold, section, base, relas, from)->Ok_0,
                spec_relocate(manifold, section, base, relas[i])->Ok_0,
                at,
            ),
    decreases i - from,
{
    let all = relocate_from(manifold, section, base, relas, from)->Ok_0;
    let head = spec_relocate(manifold, section, base, relas[from])->Ok_0;
    let rest = relocate_from(manifold, section, base, relas, from + 1)->Ok_0;
    assert(all == head + rest);
    if i == from {
        assert(all.subrange(0, 0 + head.len() as int) =~= head);
        assert(stands_at(all, head, 0));
    } else {
        lemma_record_is_carried_out(manifold, section, base, relas, from + 1, i);
        let part = spec_relocate(manifold, section, base, relas[i])->Ok_0;
        let at = choose|at: int| stands_at(rest, part, at);
        assert(all.subrange(head.len() + at, head.len() + at + part.len()) =~= rest.subrange(
            at,
            at + part.len(),
        ));
        assert(stands_at(all, part, head.len() + at));
    }
}

/// A `GLOB_DAT` record whose symbol a loaded object defines in its dynamic symbol tables with
/// a value other than 0 ends with a write of 8 bytes at the record's place: the address that
/// the scan of all objects gives.
pub proof fn lemma_glob_dat_is_resolved(
    manifold: &Manifold,
    section: &Section,
    base: usize,
    rela: Rela,
    name: Seq<u8>,
    value: u64,
)
    requires
        spec_reloc_type(rela.r_info) == R_X86_64_GLOB_DAT,
        spec_reloc_name(manifold, section, spec_reloc_sym(rela.r_info)) == Ok::<
            Seq<u8>,
            FoldError,
        >(name),
        glob_dat_from(manifold, name, 0) == Some(value),
        spec_relocate(manifold, section, base, rela) is Ok,
    ensures
        ({
            let actions = spec_relocate(manifold, section, base, rela)->Ok_0;
            &&& actions.len() == 2
            &&& actions.last() == RelocAction::Write {
                addr: wrapping_sum(base as int, (rela.r_offset as usize) as int),
                value,
                width: 8,
            }
        }),
{
    reveal(spec_relocate);
}

/// Whether the dynamic symbol tables of object number `k` define `name` with a value other
/// than 0.
pub open spec fn defines_with_value(manifold: &Manifold, name: Seq<u8>, k: int) -> bool {
    spec_find_symbol(&manifold.objects@[k], manifold, name, SHT_DYNSYM) matches Lookup::Found(
        _,
        sym,
    ) && sym.st_value != 0
}

/// The scan for a `GLOB_DAT` record gives the address of the definition in the first object
/// that defines the symbol with a value other than 0: the base of that object, or 0 where it
/// has none, plus the symbol's value.
pub proof fn lemma_glob_dat_scan(manifold: &Manifold, name: Seq<u8>, from: int, k: int)
    requires
        0 <= from <= k < manifold.objects@.len(),
        defines_with_value(manifold, name, k),
        forall|i: int| from <= i < k ==> !#[trigger] defines_with_value(manifold, name, i),
    ensures
        spec_find_symbol(&manifold.objects@[k], manifold, name, SHT_DYNSYM) matches Lookup::Found(
            _,
            sym,
        ) && glob_dat_from(manifold, name, from) == Some(
            wrap64(base_or_zero(&manifold.objects@[k]) + sym.st_value),
        ),
    decreases k - from,
{
    if from < k {
        assert(!defines_with_value(manifold, name, from));
        lemma_glob_dat_scan(manifold, name, from + 1, k);
    }
}

/// The address that the scan for a `GLOB_DAT` record gives is never 0, where the address of
/// each definition fits a 64-bit word: a definition counts only with a value other than 0.
pub proof fn lemma_glob_dat_is_not_null(manifold: &Manifold, name: Seq<u8>, from: int)
    requires
        forall|k: int|
            0 <= k < manifold.objects@.len() ==> (spec_find_symbol(
                #[trigger] &manifold.objects@[k],
                manifold,
                name,
                SHT_DYNSYM,
            ) matches Lookup::Found(_, sym) ==> base_or_zero(&manifold.objects@[k]) + sym.st_value
                <= u64::MAX),
    ensures
        glob_dat_from(manifold, name, from) matches Some(value) ==> value != 0,
    decreases manifold.objects@.len() - from,
{
    if 0 <= from < manifold.objects@.len() {
        let obj = &manifold.objects@[from];
        lemma_glob_dat_is_not_null(manifold, name, from + 1);
        match spec_find_symbol(obj, manifold, name, SHT_DYNSYM) {
            Lookup::Found(_, sym) => {
                if sym.st_value != 0 {
                    assert(wrap64(base_or_zero(obj) + sym.st_value) == base_or_zero(obj)
                        + sym.st_value);
                }
            },
            _ => {},
        }
    }
}

} // verus!
