//! Collects the thread-local storage modules of the objects.

use crate::arena::Handle;
use crate::driver::{initial_elf_key, spec_initial_elf_key};
use crate::elf::PT_TLS;
use crate::error::TlsError;
use crate::manifold::Manifold;
use crate::module::{Module, ModuleError};
use crate::object::{Object, Segment};
use crate::share_map::{ShareMapKey, Shared};
use crate::sysv::loader::same_object_but_shared;
use vstd::prelude::*;

verus! {

/// The thread-local storage of one object.
#[derive(Debug, Clone, Copy, PartialEq, Eq)]
pub struct TlsModule {
    /// The module's id: 1 for the program itself, from 2 on for its dependencies.
    pub id: usize,
    /// Distance from the start of the module's data to the thread pointer.
    pub tls_offset: usize,
    /// The object that the module belongs to.
    pub object: Handle<Object>,
    /// The segment that holds the module's initial image.
    pub segment: Handle<Segment>,
}

/// The key of the list of all modules, in the shared memory of the manifold.
pub open spec fn spec_tls_modules_key() -> ShareMapKey<Vec<TlsModule>> {
    ShareMapKey::named("tls-modules")
}

/// The key of the list of all modules, in the shared memory of the manifold.
pub fn tls_modules_key() -> (k: ShareMapKey<Vec<TlsModule>>)
    ensures
        k == spec_tls_modules_key(),
{
    ShareMapKey::new("tls-modules")
}

/// The key of an object's module, in the shared memory of the object.
pub open spec fn spec_tls_module_key() -> ShareMapKey<TlsModule> {
    ShareMapKey::named("tls-module")
}

/// The key of an object's module, in the shared memory of the object.
pub fn tls_module_key() -> (k: ShareMapKey<TlsModule>)
    ensures
        k == spec_tls_module_key(),
{
    ShareMapKey::new("tls-module")
}

/// The smallest multiple of `align` that is at least `x`; `x` itself where `align` is 0.
pub open spec fn round_up(x: int, align: int) -> int {
    if align <= 0 || x % align == 0 {
        x
    } else {
        x + align - x % align
    }
}

/// The smallest multiple of `align` that is at least `x`, or `None` where it exceeds the
/// largest machine word.
pub fn next_multiple(x: usize, align: usize) -> (r: Option<usize>)
    ensures
        r == if round_up(x as int, align as int) <= usize::MAX {
            Some(round_up(x as int, align as int) as usize)
        } else {
            None
        },
{
    if align == 0 {
        return Some(x);
    }
    let rem = x % align;
    if rem == 0 {
        return Some(x);
    }
    let add = align - rem;
    if x > usize::MAX - add {
        None
    } else {
        Some(x + add)
    }
}

/// The position at or after `from` of the first segment of `segments` of type `PT_TLS`, or the
/// length of `segments`.
pub open spec fn tls_segment_from(manifold: &Manifold, segments: Seq<Handle<Segment>>, from: int) -> int
    decreases segments.len() - from,
{
    if from < 0 || from >= segments.len() {
        segments.len() as int
    } else if manifold.segments@[segments[from].index() as int].tag == PT_TLS {
        from
    } else {
        tls_segment_from(manifold, segments, from + 1)
    }
}

/// Collector of the thread-local storage of the objects. It gives every object that has a
/// `PT_TLS` segment a module id and a place before the thread pointer.
#[derive(Debug)]
pub struct TlsCollector {
    pub last_offset: usize,
    pub module_id_alloc: usize,
}

/// What the collector decides for an object.
pub enum Collected {
    /// The object has no thread-local storage.
    Nothing,
    /// The object's module.
    Module(TlsModule),
    /// The object's module cannot be placed.
    Fail(TlsError),
}

impl TlsCollector {
    pub fn new() -> (c: Self)
        ensures
            c.last_offset == 0,
            c.module_id_alloc == 2,
    {
        Self { last_offset: 0, module_id_alloc: 2 }
    }

    /// What the collector decides for the object `obj`.
    ///
    /// An object without a segment of type `PT_TLS` has no module. Else the module is that of
    /// the object's first such segment. Its offset is the offset of the module before it plus
    /// the segment's size in memory, rounded up to the segment's alignment. Its id is 1 where
    /// the object is the program itself, which the shared memory of the manifold names, and
    /// the next free id from 2 on else.
    pub open spec fn decide(&self, obj: Handle<Object>, manifold: &Manifold) -> Collected {
        let object = manifold.objects@[obj.index() as int];
        let at = tls_segment_from(manifold, object.segments@, 0);
        if at >= object.segments@.len() {
            Collected::Nothing
        } else {
            let hseg = object.segments@[at];
            let segment = manifold.segments@[hseg.index() as int];
            let end = self.last_offset + segment.mem_size;
            if end > usize::MAX || round_up(end, segment.align as int) > usize::MAX {
                Collected::Fail(TlsError::TooLarge)
            } else {
                match manifold.shared.spec_get(spec_initial_elf_key()) {
                    None => Collected::Fail(TlsError::MissingSharedMapEntry("initial-elf")),
                    Some(initial) => if initial.index() != obj.index() && self.module_id_alloc
                        == usize::MAX {
                        Collected::Fail(TlsError::TooLarge)
                    } else {
                        Collected::Module(
                            TlsModule {
                                id: if initial.index() == obj.index() {
                                    1
                                } else {
                                    self.module_id_alloc
                                },
                                tls_offset: round_up(end, segment.align as int) as usize,
                                object: obj,
                                segment: hseg,
                            },
                        )
                    },
                }
            }
        }
    }

    /// Computes what the collector decides for the object `obj`.
    pub fn plan(&self, obj: Handle<Object>, manifold: &Manifold) -> (r: Result<Option<TlsModule>, TlsError>)
        requires
            manifold.wf(),
            manifold.objects.contains(obj),
        ensures
            match self.decide(obj, manifold) {
                Collected::Nothing => r == Ok::<Option<TlsModule>, TlsError>(None),
                Collected::Module(m) => r == Ok::<Option<TlsModule>, TlsError>(Some(m)),
                Collected::Fail(e) => r == Err::<Option<TlsModule>, TlsError>(e),
            },
            r matches Ok(Some(m)) ==> manifold.segments.contains(m.segment),
    {
        let object = manifold.objects.index(obj);
        assert(manifold.object_consistent(obj.index() as int));
        let mut k: usize = 0;
        while k < object.segments.len()
            invariant
                k <= object.segments@.len(),
                manifold.object_consistent(obj.index() as int),
                *object == manifold.objects@[obj.index() as int],
                tls_segment_from(manifold, object.segments@, 0) == tls_segment_from(
                    manifold,
                    object.segments@,
                    k as int,
                ),
            decreases object.segments@.len() - k,
        {
            let hseg = object.segments[k];
            assert(manifold.segments.contains(hseg));
            let segment = manifold.segments.index(hseg);
            if segment.tag == PT_TLS {
                if self.last_offset > usize::MAX - segment.mem_size {
                    return Err(TlsError::TooLarge);
                }
                let tls_offset = match next_multiple(
                    self.last_offset + segment.mem_size,
                    segment.align,
                ) {
                    None => {
                        return Err(TlsError::TooLarge);
                    },
                    Some(o) => o,
                };
                let initial = match manifold.shared.get(initial_elf_key()) {
                    None => {
                        return Err(TlsError::MissingSharedMapEntry("initial-elf"));
                    },
                    Some(h) => *h,
                };
                let id = if initial.idx() == obj.idx() {
                    1
                } else {
                    if self.module_id_alloc == usize::MAX {
                        return Err(TlsError::TooLarge);
                    }
                    self.module_id_alloc
                };
                return Ok(Some(TlsModule { id, tls_offset, object: obj, segment: hseg }));
            }
            k = k + 1;
        }
        Ok(None)
    }

    /// Whether `after` is `before` with the module `m` of the object `obj` recorded: in the
    /// shared memory of the object, and last in the list of modules of the shared memory of
    /// the manifold. Nothing else has changed.
    pub open spec fn recorded(before: &Manifold, after: &Manifold, obj: Handle<Object>, m: TlsModule) -> bool {
        let o = obj.index() as int;
        &&& after.sections == before.sections
        &&& after.segments == before.segments
        &&& after.env == before.env
        &&& after.objects@.len() == before.objects@.len()
        &&& forall|k: int|
            0 <= k < before.objects@.len() && k != o ==> #[trigger] after.objects@[k]
                == before.objects@[k]
        &&& same_object_but_shared(before.objects@[o], after.objects@[o])
        &&& after.objects@[o].shared.spec_get(spec_tls_module_key()) == Some(m)
        &&& forall|name: Seq<u8>|
            name != spec_tls_module_key().name() ==> after.objects@[o].shared.lookup(name)
                == before.objects@[o].shared.lookup(name)
        &&& forall|name: Seq<u8>|
            name != spec_tls_modules_key().name() ==> after.shared.lookup(name)
                == before.shared.lookup(name)
        &&& after.shared.spec_get(spec_tls_modules_key()) matches Some(list)
        &&& list@ == spec_modules(before).push(m)
    }

    /// Whether the collector went from `before` to `after`, and the manifold from `was` to
    /// `is`, as the collector decides for the object `obj`, with the error `error` if any.
    ///
    /// Where the object has no thread-local storage, nothing changes. Where its module cannot
    /// be placed, nothing changes and the reason is the error. Else the module is recorded, its
    /// offset is the collector's last offset, and the next free id has gone up by one unless
    /// the module is that of the program itself.
    pub open spec fn collects(
        before: &TlsCollector,
        after: &TlsCollector,
        obj: Handle<Object>,
        was: &Manifold,
        is: &Manifold,
        error: Option<TlsError>,
    ) -> bool {
        match before.decide(obj, was) {
            Collected::Nothing => error.is_none() && *is == *was && *after == *before,
            Collected::Fail(e) => error == Some(e) && *is == *was && *after == *before,
            Collected::Module(m) => {
                &&& error.is_none()
                &&& Self::recorded(was, is, obj, m)
                &&& after.last_offset == m.tls_offset
                &&& after.module_id_alloc == if m.id == 1 {
                    before.module_id_alloc as int
                } else {
                    before.module_id_alloc + 1
                }
            },
        }
    }

    /// Gives the object `obj` its module, if it has thread-local storage, and records it.
    ///
    /// Where the object has no thread-local storage, and where its module cannot be placed,
    /// nothing changes.
    pub fn collect(&mut self, obj: Handle<Object>, manifold: &mut Manifold) -> (r: Result<(), TlsError>)
        requires
            old(manifold).wf(),
            old(manifold).objects.contains(obj),
        ensures
            final(manifold).wf(),
            Self::collects(
                old(self),
                final(self),
                obj,
                old(manifold),
                final(manifold),
                match r {
                    Ok(_) => None,
                    Err(e) => Some(e),
                },
            ),
    {
        let module = match self.plan(obj, manifold) {
            Err(e) => {
                return Err(e);
            },
            Ok(None) => {
                return Ok(());
            },
            Ok(Some(m)) => m,
        };
        let ghost before = *manifold;
        let ghost known = spec_modules(manifold);
        match manifold.shared.get_mut(tls_modules_key()) {
            Some(list) => {
                list.push(module);
                proof {
                    Vec::<TlsModule>::lemma_wrap_unwrap(*final(list), (*final(list)).wrap());
                }
            },
            None => {
                let mut list: Vec<TlsModule> = Vec::new();
                list.push(module);
                assert(list@ =~= known.push(module));
                manifold.shared.insert(tls_modules_key(), list);
            },
        }
        manifold.objects.index_mut(obj).shared.insert(tls_module_key(), module);
        self.last_offset = module.tls_offset;
        if module.id != 1 {
            self.module_id_alloc = self.module_id_alloc + 1;
        }
        proof {
            lemma_shared_change_keeps_wf(before, *manifold, obj);
        }
        Ok(())
    }
}

/// The modules collected so far, as the shared memory of the manifold knows them.
pub open spec fn spec_modules(manifold: &Manifold) -> Seq<TlsModule> {
    match manifold.shared.spec_get(spec_tls_modules_key()) {
        Some(l) => l@,
        None => Seq::empty(),
    }
}

/// A change of the shared memory of an object keeps the manifold well-formed.
pub proof fn lemma_shared_change_keeps_wf(before: Manifold, after: Manifold, obj: Handle<Object>)
    requires
        before.wf(),
        before.objects.contains(obj),
        after.sections == before.sections,
        after.segments == before.segments,
        after.objects@.len() == before.objects@.len(),
        forall|k: int|
            0 <= k < before.objects@.len() && k != obj.index() ==> #[trigger] after.objects@[k]
                == before.objects@[k],
        same_object_but_shared(before.objects@[obj.index() as int], after.objects@[obj.index() as int]),
    ensures
        after.wf(),
{
    assert forall|k: int| 0 <= k < after.sections@.len() implies #[trigger] after.section_owned(
        k,
    ) by {
        assert(before.section_owned(k));
    }
    assert forall|k: int| 0 <= k < after.segments@.len() implies #[trigger] after.segment_owned(
        k,
    ) by {
        assert(before.segment_owned(k));
    }
    assert forall|k: int| 0 <= k < after.objects@.len() implies #[trigger] after.object_consistent(
        k,
    ) by {
        assert(before.object_consistent(k));
    }
}

impl Module for TlsCollector {
    fn name(&self) -> (n: &'static str)
        ensures
            n == "tls-collector",
    {
        "tls-collector"
    }

    fn process_object(&mut self, obj: Handle<Object>, manifold: &mut Manifold) -> (r: Result<(), ModuleError>)
        ensures
            r matches Err(e) ==> e is Tls,
            Self::collects(
                old(self),
                final(self),
                obj,
                old(manifold),
                final(manifold),
                match r {
                    Err(ModuleError::Tls(e)) => Some(e),
                    _ => None,
                },
            ),
    {
        match self.collect(obj, manifold) {
            Ok(_) => Ok(()),
            Err(e) => Err(ModuleError::Tls(e)),
        }
    }
}

/// The list of all modules and the handle of the program are stored under different names, so
/// writing the one keeps the other.
pub proof fn lemma_modules_keep_the_program()
    ensures
        spec_tls_modules_key().name() != crate::driver::spec_initial_elf_key().name(),
{
    reveal_strlit("tls-modules");
    reveal_strlit("initial-elf");
    assert("tls-modules"@[0] != "initial-elf"@[0]);
    crate::share_map::lemma_texts_differ::<Vec<TlsModule>, Handle<Object>>(
        "tls-modules",
        "initial-elf",
    );
}

} // verus!
