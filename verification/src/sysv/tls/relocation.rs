//! Relocations of thread-local storage.

use crate::arena::Handle;
use crate::elf::{ElfItem, ElfItemIterator, Rela, R_X86_64_TPOFF32, R_X86_64_TPOFF64};
use crate::error::{FoldError, TlsError};
use crate::manifold::{resolve, Manifold};
use crate::object::{Lookup, Section};
use crate::sysv::loader::{address_sum, base_of, spec_base_of, wrapping_sum};
use crate::sysv::relocation::{diff64, keep_low, low_bytes, reloc_name, spec_reloc_name, spec_reloc_sym, spec_reloc_type, split_info, wrap64, RelocAction};
use crate::sysv::tls::collection::{spec_tls_module_key, tls_module_key};
use vstd::prelude::*;

verus! {

/// Relocator of the records of thread-local storage.
#[derive(Debug)]
pub struct TlsRelocator {}

/// What a record of thread-local storage gives.
pub enum TlsOutcome {
    /// Nothing to do.
    Skip,
    /// One write.
    Write(RelocAction),
    /// The name of the record's symbol cannot be read, or the object that defines the symbol
    /// has no module.
    Fail(TlsError),
    /// No loaded object defines the record's symbol, whose name is given.
    Unresolved(Seq<u8>),
}

/// What the record `rela` of `section` gives, in an object of base `base`.
///
/// Only the types `TPOFF32` and `TPOFF64` ask for something: with the record's symbol looked
/// up among the loaded objects, they write the symbol's value minus the offset of the module
/// of the object that defines it, in 4 and in 8 bytes, at the base plus `r_offset`. The other
/// types of thread-local storage are known and ask for nothing, as do all types that are not
/// of thread-local storage.
pub open spec fn spec_tls_relocate(manifold: &Manifold, section: &Section, base: usize, rela: Rela) -> TlsOutcome {
    let addr = wrapping_sum(base as int, (rela.r_offset as usize) as int);
    let t = spec_reloc_type(rela.r_info);
    if t != R_X86_64_TPOFF32 && t != R_X86_64_TPOFF64 {
        TlsOutcome::Skip
    } else {
        match spec_reloc_name(manifold, section, spec_reloc_sym(rela.r_info)) {
            Err(e) => TlsOutcome::Fail(TlsError::Fold(e)),
            Ok(name) => match resolve(manifold, name, section.obj) {
                Lookup::Found(c, sym) => match manifold.objects@[c.obj.index() as int].shared.spec_get(
                    spec_tls_module_key(),
                ) {
                    None => TlsOutcome::Fail(TlsError::MissingSharedMapEntry("tls-module")),
                    Some(module) => {
                        let width: usize = if t == R_X86_64_TPOFF32 {
                            4
                        } else {
                            8
                        };
                        TlsOutcome::Write(
                            RelocAction::Write {
                                addr,
                                value: low_bytes(wrap64(sym.st_value - module.tls_offset), width),
                                width,
                            },
                        )
                    },
                },
                Lookup::Fail(e) => TlsOutcome::Fail(TlsError::Fold(e)),
                Lookup::Missing => TlsOutcome::Unresolved(name),
            },
        }
    }
}

/// Whether the result `r` says what `outcome` says, for a list of actions that was `before` and
/// is `after`.
pub open spec fn tls_reports(r: Result<(), TlsError>, outcome: TlsOutcome, before: Seq<RelocAction>, after: Seq<RelocAction>) -> bool {
    match outcome {
        TlsOutcome::Skip => r == Ok::<(), TlsError>(()) && after == before,
        TlsOutcome::Write(action) => r == Ok::<(), TlsError>(()) && after == before.push(action),
        TlsOutcome::Fail(e) => r == Err::<(), TlsError>(e) && after == before,
        TlsOutcome::Unresolved(name) => after == before && (r matches Err(
            TlsError::Fold(FoldError::SymbolNotFound(n)),
        ) && n@ == name),
    }
}

/// What the records `relas` give from number `from` on that are writes, up to the first
/// record that fails.
pub open spec fn tls_writes_from(manifold: &Manifold, section: &Section, base: usize, relas: Seq<Rela>, from: int) -> Seq<
    RelocAction,
>
    decreases relas.len() - from,
{
    if from < 0 || from >= relas.len() {
        Seq::empty()
    } else {
        match spec_tls_relocate(manifold, section, base, relas[from]) {
            TlsOutcome::Skip => tls_writes_from(manifold, section, base, relas, from + 1),
            TlsOutcome::Write(a) => seq![a] + tls_writes_from(
                manifold,
                section,
                base,
                relas,
                from + 1,
            ),
            _ => Seq::empty(),
        }
    }
}

/// The position at or after `from` of the first record of `relas` that fails, or the length
/// of `relas`.
pub open spec fn tls_failure_from(manifold: &Manifold, section: &Section, base: usize, relas: Seq<Rela>, from: int) -> int
    decreases relas.len() - from,
{
    if from < 0 || from >= relas.len() {
        relas.len() as int
    } else {
        match spec_tls_relocate(manifold, section, base, relas[from]) {
            TlsOutcome::Skip | TlsOutcome::Write(_) => tls_failure_from(
                manifold,
                section,
                base,
                relas,
                from + 1,
            ),
            _ => from,
        }
    }
}

impl TlsRelocator {
    pub fn new() -> Self {
        Self {  }
    }

    /// Name of the module.
    pub fn name(&self) -> (n: &'static str)
        ensures
            n == "tls-relocation",
    {
        "tls-relocation"
    }

    /// Appends to `out` what the record `rela` of `section` asks for, in an object of base
    /// `base`.
    pub fn relocate(
        out: &mut Vec<RelocAction>,
        manifold: &Manifold,
        section: Handle<Section>,
        base: usize,
        rela: &Rela,
    ) -> (r: Result<(), TlsError>)
        requires
            manifold.wf(),
            manifold.sections.contains(section),
        ensures
            tls_reports(
                r,
                spec_tls_relocate(manifold, &manifold.sections@[section.index() as int], base, *rela),
                old(out)@,
                final(out)@,
            ),
    {
        let addr = address_sum(base, rela.r_offset as usize);
        let (t, sym) = split_info(rela.r_info);
        if t != R_X86_64_TPOFF32 && t != R_X86_64_TPOFF64 {
            return Ok(());
        }
        assert(manifold.section_owned(section.index() as int));
        let local = manifold.sections.index(section).obj;
        let name = match reloc_name(manifold, section, sym) {
            Err(e) => {
                return Err(TlsError::Fold(e));
            },
            Ok(name) => name,
        };
        let (definer, symbol) = match manifold.find_symbol(name, local) {
            Err(e) => {
                return Err(TlsError::Fold(e));
            },
            Ok(found) => found,
        };
        let tls_offset = match manifold.objects.index(definer.obj).shared.get(tls_module_key()) {
            None => {
                return Err(TlsError::MissingSharedMapEntry("tls-module"));
            },
            Some(module) => module.tls_offset,
        };
        let width: usize = if t == R_X86_64_TPOFF32 {
            4
        } else {
            8
        };
        let value = keep_low(diff64(symbol.st_value, tls_offset as u64), width);
        out.push(RelocAction::Write { addr, value, width });
        Ok(())
    }

    /// Appends to `out` the writes that the records of thread-local storage of the relocation
    /// section `section` ask for, in the order of the records.
    ///
    /// Fails with `MissingSharedMapEntry` where the object of the section has no base. Where a
    /// record fails, its error is returned and `out` holds the writes of the records before it.
    pub fn process_section(&mut self, out: &mut Vec<RelocAction>, section: Handle<Section>, manifold: &Manifold) -> (r: Result<
        (),
        TlsError,
    >)
        requires
            manifold.wf(),
            manifold.sections.contains(section),
        ensures
            ({
                let s = &manifold.sections@[section.index() as int];
                match spec_base_of(&manifold.objects@[s.obj.index() as int]) {
                    None => r == Err::<(), TlsError>(TlsError::MissingSharedMapEntry("sys_loader"))
                        && final(out)@ == old(out)@,
                    Some(base) => {
                        let relas = s.entries::<Rela>();
                        let stop = tls_failure_from(manifold, s, base, relas, 0);
                        &&& final(out)@ == old(out)@ + tls_writes_from(manifold, s, base, relas, 0)
                        &&& r.is_ok() == (stop >= relas.len())
                        &&& stop < relas.len() ==> tls_reports(
                            r,
                            spec_tls_relocate(manifold, s, base, relas[stop]),
                            final(out)@,
                            final(out)@,
                        )
                    },
                }
            }),
    {
        assert(manifold.section_owned(section.index() as int));
        let s = manifold.sections.index(section);
        let base = match base_of(manifold.objects.index(s.obj)) {
            None => {
                return Err(TlsError::MissingSharedMapEntry("sys_loader"));
            },
            Some(b) => b,
        };
        if s.entity_size != Rela::size() {
            assert(out@ =~= old(out)@ + Seq::<RelocAction>::empty());
            return Ok(());
        }
        let mut it = ElfItemIterator::<Rela>::from_section(s);
        let ghost relas = s.entries::<Rela>();
        let ghost mut k: int = 0;
        let ghost mut acc: Seq<RelocAction> = Seq::empty();
        assert(relas.subrange(0, relas.len() as int) =~= relas);
        assert(out@ =~= old(out)@ + acc);
        assert(acc + tls_writes_from(manifold, s, base, relas, 0) =~= tls_writes_from(
            manifold,
            s,
            base,
            relas,
            0,
        ));
        loop
            invariant
                manifold.wf(),
                manifold.sections.contains(section),
                *s == manifold.sections@[section.index() as int],
                spec_base_of(&manifold.objects@[s.obj.index() as int]) == Some(base),
                s.entity_size == Rela::spec_size(),
                it.item_size() == Rela::spec_size(),
                relas == s.entries::<Rela>(),
                0 <= k <= relas.len(),
                it.remaining() == relas.subrange(k, relas.len() as int),
                out@ == old(out)@ + acc,
                tls_writes_from(manifold, s, base, relas, 0) == acc + tls_writes_from(
                    manifold,
                    s,
                    base,
                    relas,
                    k,
                ),
                tls_failure_from(manifold, s, base, relas, 0) == tls_failure_from(
                    manifold,
                    s,
                    base,
                    relas,
                    k,
                ),
            decreases it.remaining().len(),
        {
            assert(relas.subrange(k, relas.len() as int).len() == relas.len() - k);
            match it.next() {
                None => {
                    assert(acc + Seq::<RelocAction>::empty() =~= acc);
                    return Ok(());
                },
                Some(rela) => {
                    assert(rela == relas[k]);
                    assert(relas.subrange(k, relas.len() as int).drop_first() =~= relas.subrange(
                        k + 1,
                        relas.len() as int,
                    ));
                    match Self::relocate(out, manifold, section, base, &rela) {
                        Err(e) => {
                            assert(acc + Seq::<RelocAction>::empty() =~= acc);
                            return Err(e);
                        },
                        Ok(_) => {
                            proof {
                                let rest = tls_writes_from(manifold, s, base, relas, k + 1);
                                match spec_tls_relocate(manifold, s, base, rela) {
                                    TlsOutcome::Write(a) => {
                                        assert(acc + (seq![a] + rest) =~= acc.push(a) + rest);
                                        assert(out@ =~= old(out)@ + acc.push(a));
                                        acc = acc.push(a);
                                    },
                                    _ => {},
                                }
                                k = k + 1;
                            }
                        },
                    }
                },
            }
        }
    }
}

} // verus!
