//! The pipeline: an ordered list of phases, and the engine that applies them to a manifold.

use crate::arena::Handle;
use crate::bytes::bytes_eq;
use crate::cli::{parse, spec_find_target, Config};
use crate::env::Env;
use crate::error::FoldError;
use crate::file::Mapping;
use crate::filters::{Filter, ItemFilter, ObjectFilter, ObjectMask, SectionID, SegmentID};
use crate::manifold::{ingest_defect, Manifold};
use crate::module::{grown, Module, ModuleError};
use crate::object::{Object, Section, Segment};
use crate::share_map::{ShareMap, ShareMapKey, Shared};
use crate::sysv::collector::{
    remap_key, search_paths_key, spec_remap_key, spec_search_paths_key, RemapEntry,
    SysvRemappingCollector,
};
use crate::sysv::loader::SysvLoader;
use crate::sysv::protect::SysvProtect;
use crate::sysv::relocation::SysvReloc;
use crate::sysv::start::SysvStart;
use crate::sysv::tls::allocation::TlsAllocator;
use crate::sysv::tls::collection::TlsCollector;
use crate::sysv::tls::relocation::TlsRelocator;
use crate::sysv::SysvModule;
use vstd::prelude::*;
use vstd::string::StringSliceAdditionalSpecFns;

verus! {

// ————————————————————————————————— Phases ————————————————————————————————— //
/// One step of the pipeline: a module, the filter that selects what it is applied to, and a
/// name by which the phase is found.
pub struct Phase<M> {
    pub name: String,
    pub module: M,
    pub filter: Filter,
}

impl<M> Phase<M> {
    /// The name of the phase, as bytes.
    pub open spec fn name_bytes(&self) -> Seq<u8> {
        vstd::utf8::encode_utf8(self.name@)
    }

    /// Whether this phase is made of `name`, `module` and `filter`.
    pub open spec fn made_of(&self, name: &str, module: M, filter: Filter) -> bool {
        self.name@ == name@ && self.module == module && self.filter == filter
    }
}

/// The position of the first phase of `phases` at or after `from` whose name is `name`, or the
/// number of phases where there is none.
pub open spec fn phase_from<M>(phases: Seq<Phase<M>>, name: Seq<u8>, from: int) -> int
    decreases phases.len() - from,
{
    if from < 0 || from >= phases.len() {
        phases.len() as int
    } else if phases[from].name_bytes() == name {
        from
    } else {
        phase_from(phases, name, from + 1)
    }
}

/// Module chain that can be applied to an ELF object file.
///
/// It consists of phases, each a module with a filter, that are applied one after the other to
/// a manifold. A chain is made with [`Fold::new`]; phases are added with the methods of the
/// chain, and existing phases can be removed or replaced, or new ones inserted around them.
pub struct Fold<M> {
    pub config: Config,
    pub initial_share_map: ShareMap,
    pub phases: Vec<Phase<M>>,
}

/// Where a new phase goes relative to a phase.
#[derive(Clone, Copy, Debug, PartialEq, Eq, Structural)]
pub enum CursorPosition {
    Before,
    After,
}

/// Handle used to modify an existing phase of a [`Fold`]: to replace it, to delete it, or to
/// insert phases before or after it.
pub struct ModuleHandle<M> {
    pub fold: Fold<M>,
    pub phase: usize,
}

/// Handle used to insert phases at a position of a [`Fold`].
pub struct PositionedModuleHandle<M> {
    pub hdx: ModuleHandle<M>,
    pub position: CursorPosition,
}

impl<M> Fold<M> {
    /// Creates an empty chain from the execution context (`env`) and the name of the linker's
    /// binary (`linker_name`), or `None` where the arguments name no program to link.
    ///
    /// `linker_name` tells whether the linker was called by its name (`/lib/linker exe`) or
    /// started by the kernel for the program (`./exe`).
    pub fn new(env: Env, linker_name: &str) -> (r: Option<Fold<M>>)
        ensures
            match spec_find_target(env.args@, linker_name.spec_bytes()) {
                None => r.is_none(),
                Some(i) => r matches Some(fold) && fold.phases@.len() == 0 && fold.config.target@
                    == env.args@[i].bytes@ && fold.config.env == env && (forall|name: Seq<u8>|
                    fold.initial_share_map.lookup(name).is_none()),
            },
    {
        match parse(env, linker_name.as_bytes()) {
            None => None,
            Some(config) => Some(
                Fold { config, initial_share_map: ShareMap::new(), phases: Vec::new() },
            ),
        }
    }

    /// The position of the first phase named `name`, if there is one.
    pub fn find(&self, name: &str) -> (r: Option<usize>)
        ensures
            match r {
                Some(i) => i < self.phases@.len() && i == phase_from(
                    self.phases@,
                    name.spec_bytes(),
                    0,
                ),
                None => phase_from(self.phases@, name.spec_bytes(), 0) == self.phases@.len(),
            },
    {
        let mut i: usize = 0;
        while i < self.phases.len()
            invariant
                i <= self.phases@.len(),
                phase_from(self.phases@, name.spec_bytes(), 0) == phase_from(
                    self.phases@,
                    name.spec_bytes(),
                    i as int,
                ),
            decreases self.phases@.len() - i,
        {
            if bytes_eq(self.phases[i].name.as_str().as_bytes(), name.as_bytes()) {
                return Some(i);
            }
            i = i + 1;
        }
        None
    }

    /// Creates a [`ModuleHandle`] to modify the first phase named `name`, which must exist.
    pub fn select(self, name: &str) -> (h: ModuleHandle<M>)
        requires
            phase_from(self.phases@, name.spec_bytes(), 0) < self.phases@.len(),
        ensures
            h.fold == self,
            h.phase == phase_from(self.phases@, name.spec_bytes(), 0),
    {
        let index = match self.find(name) {
            Some(i) => i,
            None => 0,
        };
        ModuleHandle { fold: self, phase: index }
    }

    /// Creates a [`ModuleHandle`] to modify the first phase named `name`; gives the chain back
    /// where no phase has that name.
    pub fn try_select(self, name: &str) -> (r: Result<ModuleHandle<M>, Fold<M>>)
        ensures
            match r {
                Ok(h) => h.fold == self && h.phase < self.phases@.len() && h.phase == phase_from(
                    self.phases@,
                    name.spec_bytes(),
                    0,
                ),
                Err(fold) => fold == self && phase_from(self.phases@, name.spec_bytes(), 0)
                    == self.phases@.len(),
            },
    {
        match self.find(name) {
            Some(index) => Ok(ModuleHandle { fold: self, phase: index }),
            None => Err(self),
        }
    }

    /// Selects the first phase named `name`, which must exist, and hands it to `map`, whose
    /// result is returned.
    pub fn apply<F: FnOnce(ModuleHandle<M>) -> R, R>(self, name: &str, map: F) -> (r: R)
        requires
            phase_from(self.phases@, name.spec_bytes(), 0) < self.phases@.len(),
            map.requires(
                (
                    ModuleHandle {
                        fold: self,
                        phase: phase_from(self.phases@, name.spec_bytes(), 0) as usize,
                    },
                ),
            ),
        ensures
            map.ensures(
                (
                    ModuleHandle {
                        fold: self,
                        phase: phase_from(self.phases@, name.spec_bytes(), 0) as usize,
                    },
                ),
                r,
            ),
    {
        map(self.select(name))
    }

    /// Creates a [`PositionedModuleHandle`] at the start of the chain.
    pub fn front(self) -> (h: PositionedModuleHandle<M>)
        ensures
            h.hdx.fold == self,
            h.hdx.phase == 0,
            h.position == CursorPosition::Before,
    {
        PositionedModuleHandle {
            hdx: ModuleHandle { fold: self, phase: 0 },
            position: CursorPosition::Before,
        }
    }

    /// Creates a [`PositionedModuleHandle`] at the end of the chain, which must not be empty.
    pub fn back(self) -> (h: PositionedModuleHandle<M>)
        requires
            self.phases@.len() > 0,
        ensures
            h.hdx.fold == self,
            h.hdx.phase == self.phases@.len() - 1,
            h.position == CursorPosition::After,
    {
        let phase = self.phases.len() - 1;
        PositionedModuleHandle {
            hdx: ModuleHandle { fold: self, phase },
            position: CursorPosition::After,
        }
    }

    /// Registers a module at the end of the chain.
    pub fn register(self, name: &str, module: M, item: Filter) -> (f: Self)
        ensures
            f.config == self.config,
            f.initial_share_map == self.initial_share_map,
            f.phases@.len() == self.phases@.len() + 1,
            f.phases@.subrange(0, self.phases@.len() as int) == self.phases@,
            f.phases@.last().made_of(name, module, item),
    {
        let mut fold = self;
        fold.phases.push(Phase { name: name.to_owned(), module, filter: item });
        assert(fold.phases@.subrange(0, self.phases@.len() as int) =~= self.phases@);
        fold
    }

    /// The directories in which libraries are looked for, as the initial shared memory knows
    /// them.
    pub open spec fn spec_search_paths(&self) -> Seq<Vec<u8>> {
        match self.initial_share_map.spec_get(spec_search_paths_key()) {
            Some(paths) => paths@,
            None => Seq::empty(),
        }
    }

    /// Adds `path` after the directories in which libraries are looked for.
    pub fn search_path(self, path: &[u8]) -> (f: Self)
        ensures
            f.config == self.config,
            f.phases == self.phases,
            f.spec_search_paths().len() == self.spec_search_paths().len() + 1,
            f.spec_search_paths().subrange(0, self.spec_search_paths().len() as int)
                == self.spec_search_paths(),
            f.spec_search_paths().last()@ == path@,
            forall|name: Seq<u8>|
                name != spec_search_paths_key().name() ==> f.initial_share_map.lookup(name)
                    == self.initial_share_map.lookup(name),
    {
        let mut fold = self;
        let entry = crate::bytes::to_vec(path);
        match fold.initial_share_map.get_mut(search_paths_key()) {
            Some(list) => {
                let ghost before = list@;
                list.push(entry);
                proof {
                    Vec::<Vec<u8>>::lemma_wrap_unwrap(*final(list), (*final(list)).wrap());
                    assert(list@.subrange(0, before.len() as int) =~= before);
                }
            },
            None => {
                let mut list: Vec<Vec<u8>> = Vec::new();
                list.push(entry);
                assert(list@.subrange(0, 0) =~= Seq::<Vec<u8>>::empty());
                fold.initial_share_map.insert(search_paths_key(), list);
            },
        }
        fold
    }

    /// A mutable reference to the initial [`ShareMap`], with which the manifold starts.
    pub fn share_map(&mut self) -> (m: &mut ShareMap)
        ensures
            *m == old(self).initial_share_map,
            final(self).initial_share_map == *final(m),
            final(self).config == old(self).config,
            final(self).phases == old(self).phases,
    {
        &mut self.initial_share_map
    }
}

impl<M> ModuleHandle<M> {
    /// Deletes the selected phase, which must be one of the chain.
    pub fn delete(self) -> (f: Fold<M>)
        requires
            self.phase < self.fold.phases@.len(),
        ensures
            f.config == self.fold.config,
            f.initial_share_map == self.fold.initial_share_map,
            f.phases@ == self.fold.phases@.remove(self.phase as int),
    {
        let mut fold = self.fold;
        let _removed = fold.phases.remove(self.phase);
        fold
    }

    /// Replaces the selected phase, which must be one of the chain, with a new name, module
    /// and filter.
    pub fn replace(self, name: &str, module: M, item: Filter) -> (f: Fold<M>)
        requires
            self.phase < self.fold.phases@.len(),
        ensures
            f.config == self.fold.config,
            f.initial_share_map == self.fold.initial_share_map,
            f.phases@.len() == self.fold.phases@.len(),
            f.phases@[self.phase as int].made_of(name, module, item),
            forall|i: int|
                0 <= i < f.phases@.len() && i != self.phase ==> f.phases@[i]
                    == self.fold.phases@[i],
    {
        let mut fold = self.fold;
        fold.phases[self.phase] = Phase { name: name.to_owned(), module, filter: item };
        fold
    }

    /// Creates a [`PositionedModuleHandle`] between the selected phase and the next one, to
    /// insert phases that run after the selected one.
    pub fn after(self) -> (h: PositionedModuleHandle<M>)
        ensures
            h.hdx == self,
            h.position == CursorPosition::After,
    {
        PositionedModuleHandle { hdx: self, position: CursorPosition::After }
    }

    /// Creates a [`PositionedModuleHandle`] between the selected phase and the previous one,
    /// to insert phases that run before the selected one.
    pub fn before(self) -> (h: PositionedModuleHandle<M>)
        ensures
            h.hdx == self,
            h.position == CursorPosition::Before,
    {
        PositionedModuleHandle { hdx: self, position: CursorPosition::Before }
    }
}

impl<M> PositionedModuleHandle<M> {
    /// Where in the chain a new phase goes.
    pub open spec fn slot(&self) -> int {
        match self.position {
            CursorPosition::After => self.hdx.phase + 1,
            CursorPosition::Before => self.hdx.phase as int,
        }
    }

    /// Returns the [`ModuleHandle`] that this position was taken at.
    pub fn as_handle(self) -> (h: ModuleHandle<M>)
        ensures
            h == self.hdx,
    {
        self.hdx
    }

    /// Registers a new phase at the position of the handle, which must lie inside the chain or
    /// at its end. The phases before the position stay where they are; those from the position
    /// on move up by one.
    pub fn register(self, name: &str, module: M, item: Filter) -> (f: Fold<M>)
        requires
            self.slot() <= self.hdx.fold.phases@.len(),
        ensures
            f.config == self.hdx.fold.config,
            f.initial_share_map == self.hdx.fold.initial_share_map,
            f.phases@.len() == self.hdx.fold.phases@.len() + 1,
            f.phases@[self.slot()].made_of(name, module, item),
            forall|i: int| 0 <= i < self.slot() ==> f.phases@[i] == self.hdx.fold.phases@[i],
            forall|i: int|
                self.slot() <= i < self.hdx.fold.phases@.len() ==> f.phases@[i + 1]
                    == self.hdx.fold.phases@[i],
    {
        let _all = self.hdx.fold.phases.len();
        let at = match self.position {
            CursorPosition::After => self.hdx.phase + 1,
            CursorPosition::Before => self.hdx.phase,
        };
        let mut fold = self.hdx.fold;
        fold.phases.insert(at, Phase { name: name.to_owned(), module, filter: item });
        fold
    }
}

// ——————————————————————————————— Scheduling ——————————————————————————————— //
/// What the engine does next: the hook of the phase's module to call, and on what.
#[derive(Clone, Copy, Debug, PartialEq, Eq)]
pub enum Step {
    /// Call `process_manifold`.
    Manifold,
    /// Call `process_object` on the object.
    Object(Handle<Object>),
    /// Call `process_segment` on the segment.
    Segment(Handle<Segment>),
    /// Call `process_section` on the section.
    Section(Handle<Section>),
}

/// What the engine looks at next in a phase.
#[derive(Clone, Copy, Debug, PartialEq, Eq, Structural)]
pub enum Stage {
    /// The manifold as a whole.
    Manifold,
    /// An object.
    Object,
    /// A segment of an object.
    Segments,
    /// A section of an object.
    Sections,
    /// Nothing: the phase is over.
    Done,
}

/// How far a phase has come: what the engine looks at next, of which object, and which of the
/// object's segments or sections.
///
/// The cursor holds numbers, not references: objects, segments and sections that a module
/// adds while the phase runs are found when the cursor comes to their number.
#[derive(Clone, Copy, Debug, PartialEq, Eq, Structural)]
pub struct Cursor {
    pub stage: Stage,
    pub object: usize,
    pub item: usize,
}

/// The order of the stages in the walk of one object.
pub open spec fn stage_rank(stage: Stage) -> int {
    match stage {
        Stage::Manifold => 0,
        Stage::Object => 1,
        Stage::Segments => 2,
        Stage::Sections => 3,
        Stage::Done => 4,
    }
}

/// Whether the cursor `a` comes before the cursor `b` in a phase.
pub open spec fn precedes(a: Cursor, b: Cursor) -> bool {
    if a.stage is Done {
        false
    } else if b.stage is Done {
        true
    } else if a.stage is Manifold {
        !(b.stage is Manifold)
    } else if b.stage is Manifold {
        false
    } else {
        a.object < b.object || (a.object == b.object && (stage_rank(a.stage) < stage_rank(
            b.stage,
        ) || (a.stage == b.stage && a.item < b.item)))
    }
}

/// One look of the engine: what it does for the place that `cursor` is at, if anything, and
/// the place it looks at next.
///
/// - At the manifold, the manifold hook is called where the filter matches the manifold; the
///   first object comes next.
/// - At an object that the manifold does not hold, the phase is over. At another object, the
///   object hook is called where the filter matches the object; the object's segments come
///   next.
/// - At a segment, where the filter is no segment filter or the object has no segment of that
///   number, the object's sections come next. Else the segment hook is called where the filter
///   matches the segment, and the object's next segment comes next.
/// - At a section, alike; after the last section comes the next object.
pub open spec fn look(filter: &Filter, manifold: &Manifold, cursor: Cursor) -> (Option<Step>, Cursor) {
    let o = cursor.object;
    match cursor.stage {
        Stage::Manifold => (
            if filter.spec_matches_manifold() {
                Some(Step::Manifold)
            } else {
                None
            },
            Cursor { stage: Stage::Object, object: 0, item: 0 },
        ),
        Stage::Done => (None, cursor),
        _ => if o as int >= manifold.objects@.len() || o == usize::MAX {
            (None, Cursor { stage: Stage::Done, object: o, item: 0 })
        } else {
            let obj = &manifold.objects@[o as int];
            match cursor.stage {
                Stage::Object => (
                    if filter.spec_matches_object(obj) {
                        Some(Step::Object(Handle::at(o as nat)))
                    } else {
                        None
                    },
                    Cursor { stage: Stage::Segments, object: o, item: 0 },
                ),
                Stage::Segments => if !filter.spec_is_segment_filter() || cursor.item as int
                    >= obj.segments@.len() || cursor.item == usize::MAX {
                    (None, Cursor { stage: Stage::Sections, object: o, item: 0 })
                } else {
                    let h = obj.segments@[cursor.item as int];
                    (
                        if filter.spec_matches_segment(
                            &manifold.segments@[h.index() as int],
                            obj,
                        ) {
                            Some(Step::Segment(h))
                        } else {
                            None
                        },
                        Cursor { stage: Stage::Segments, object: o, item: (cursor.item + 1) as usize },
                    )
                },
                _ => if !filter.spec_is_section_filter() || cursor.item as int
                    >= obj.sections@.len() || cursor.item == usize::MAX {
                    (None, Cursor { stage: Stage::Object, object: (o + 1) as usize, item: 0 })
                } else {
                    let h = obj.sections@[cursor.item as int];
                    (
                        if filter.spec_matches_section(
                            &manifold.sections@[h.index() as int],
                            obj,
                        ) {
                            Some(Step::Section(h))
                        } else {
                            None
                        },
                        Cursor { stage: Stage::Sections, object: o, item: (cursor.item + 1) as usize },
                    )
                },
            }
        },
    }
}

/// How many looks are left at most from `cursor` on, while the manifold stays as it is.
pub open spec fn looks_left(manifold: &Manifold, cursor: Cursor) -> (int, int, int) {
    let o = cursor.object as int;
    let n = manifold.objects@.len() as int;
    match cursor.stage {
        Stage::Manifold => (n + 2, 0, 0),
        Stage::Done => (0, 0, 0),
        _ => if o >= n || o == usize::MAX {
            (1, 0, 0)
        } else {
            let obj = manifold.objects@[o];
            match cursor.stage {
                Stage::Object => (n - o + 1, 3, 0),
                Stage::Segments => (
                    n - o + 1,
                    2,
                    if cursor.item as int >= obj.segments@.len() {
                        0
                    } else {
                        obj.segments@.len() - cursor.item
                    },
                ),
                _ => (
                    n - o + 1,
                    1,
                    if cursor.item as int >= obj.sections@.len() {
                        0
                    } else {
                        obj.sections@.len() - cursor.item
                    },
                ),
            }
        },
    }
}

/// What the engine does next from `cursor` on, and where the cursor is after it: the first
/// look that finds something to do, or the end of the phase.
pub open spec fn next_from(filter: &Filter, manifold: &Manifold, cursor: Cursor) -> (Option<Step>, Cursor)
    decreases looks_left(manifold, cursor).0, looks_left(manifold, cursor).1, looks_left(manifold, cursor).2,
{
    if cursor.stage is Done {
        (None, cursor)
    } else {
        let (step, next) = look(filter, manifold, cursor);
        if step.is_some() {
            (step, next)
        } else {
            next_from(filter, manifold, next)
        }
    }
}

impl Cursor {
    /// The cursor at the start of a phase.
    pub fn start() -> (c: Cursor)
        ensures
            c == (Cursor { stage: Stage::Manifold, object: 0, item: 0 }),
    {
        Cursor { stage: Stage::Manifold, object: 0, item: 0 }
    }

    /// Whether the phase is over.
    pub fn is_done(&self) -> (b: bool)
        ensures
            b == (self.stage is Done),
    {
        match self.stage {
            Stage::Done => true,
            _ => false,
        }
    }
}

/// One look of the engine; see [`look`].
fn look_once(filter: &Filter, manifold: &Manifold, cursor: Cursor) -> (r: (Option<Step>, Cursor))
    requires
        manifold.wf(),
    ensures
        r == look(filter, manifold, cursor),
        !(cursor.stage is Done) ==> precedes(cursor, r.1),
        r.0 matches Some(Step::Object(h)) ==> manifold.objects.contains(h),
        r.0 matches Some(Step::Segment(h)) ==> manifold.segments.contains(h),
        r.0 matches Some(Step::Section(h)) ==> manifold.sections.contains(h),
{
    let o = cursor.object;
    let _live = manifold.objects.len();
    match cursor.stage {
        Stage::Manifold => {
            let step = if filter.matches_manifold() {
                Some(Step::Manifold)
            } else {
                None
            };
            (step, Cursor { stage: Stage::Object, object: 0, item: 0 })
        },
        Stage::Done => (None, cursor),
        Stage::Object => {
            let h = Handle::<Object>::new(o);
            match manifold.objects.get(h) {
                None => (None, Cursor { stage: Stage::Done, object: o, item: 0 }),
                Some(obj) => {
                    let step = if filter.matches_object(obj) {
                        Some(Step::Object(h))
                    } else {
                        None
                    };
                    (step, Cursor { stage: Stage::Segments, object: o, item: 0 })
                },
            }
        },
        Stage::Segments => {
            let h = Handle::<Object>::new(o);
            match manifold.objects.get(h) {
                None => (None, Cursor { stage: Stage::Done, object: o, item: 0 }),
                Some(obj) => {
                    assert(manifold.object_consistent(o as int));
                    let _all = obj.segments.len();
                    if !filter.is_segment_filter() || cursor.item >= obj.segments.len() {
                        (None, Cursor { stage: Stage::Sections, object: o, item: 0 })
                    } else {
                        let hs = obj.segments[cursor.item];
                        assert(manifold.segments.contains(hs));
                        let step = if filter.matches_segment(manifold.segments.index(hs), obj) {
                            Some(Step::Segment(hs))
                        } else {
                            None
                        };
                        (step, Cursor { stage: Stage::Segments, object: o, item: cursor.item + 1 })
                    }
                },
            }
        },
        Stage::Sections => {
            let h = Handle::<Object>::new(o);
            match manifold.objects.get(h) {
                None => (None, Cursor { stage: Stage::Done, object: o, item: 0 }),
                Some(obj) => {
                    assert(manifold.object_consistent(o as int));
                    let _all = obj.sections.len();
                    if !filter.is_section_filter() || cursor.item >= obj.sections.len() {
                        (None, Cursor { stage: Stage::Object, object: o + 1, item: 0 })
                    } else {
                        let hs = obj.sections[cursor.item];
                        assert(manifold.sections.contains(hs));
                        let step = if filter.matches_section(manifold.sections.index(hs), obj) {
                            Some(Step::Section(hs))
                        } else {
                            None
                        };
                        (step, Cursor { stage: Stage::Sections, object: o, item: cursor.item + 1 })
                    }
                },
            }
        },
    }
}

/// `precedes` is transitive.
pub proof fn lemma_precedes_transitive(a: Cursor, b: Cursor, c: Cursor)
    requires
        precedes(a, b),
        precedes(b, c),
    ensures
        precedes(a, c),
{
}

/// What the engine does next in a phase of filter `filter`, and moves `cursor` past it.
/// `None` says that the phase is over.
///
/// The cursor moves forward with every step. A handle that comes with a step designates an
/// item of the manifold.
pub fn next_step(filter: &Filter, manifold: &Manifold, cursor: &mut Cursor) -> (r: Option<Step>)
    requires
        manifold.wf(),
    ensures
        (r, *final(cursor)) == next_from(filter, manifold, *old(cursor)),
        r.is_some() ==> precedes(*old(cursor), *final(cursor)),
        r.is_none() ==> final(cursor).stage is Done,
        r matches Some(Step::Object(h)) ==> manifold.objects.contains(h),
        r matches Some(Step::Segment(h)) ==> manifold.segments.contains(h),
        r matches Some(Step::Section(h)) ==> manifold.sections.contains(h),
{
    loop
        invariant
            manifold.wf(),
            next_from(filter, manifold, *old(cursor)) == next_from(filter, manifold, *cursor),
            *cursor == *old(cursor) || precedes(*old(cursor), *cursor),
        decreases
                looks_left(manifold, *cursor).0,
                looks_left(manifold, *cursor).1,
                looks_left(manifold, *cursor).2,
    {
        if cursor.is_done() {
            return None;
        }
        let ghost before = *cursor;
        let (step, next) = look_once(filter, manifold, *cursor);
        *cursor = next;
        proof {
            if before != *old(cursor) {
                lemma_precedes_transitive(*old(cursor), before, next);
            }
        }
        if step.is_some() {
            return step;
        }
    }
}

/// Every object of the manifold is visited, also one that was added while the phase ran: at
/// an object that the manifold holds, a filter that matches the object has the object hook
/// called on it next. (The number of objects of a manifold that exists at run time fits a
/// machine word.)
pub proof fn lemma_live_object_is_visited(filter: &Filter, manifold: &Manifold, cursor: Cursor)
    requires
        manifold.objects@.len() <= usize::MAX,
        cursor.stage is Object,
        cursor.object < manifold.objects@.len(),
        filter.spec_matches_object(&manifold.objects@[cursor.object as int]),
    ensures
        next_from(filter, manifold, cursor).0 == Some(Step::Object(Handle::at(cursor.object as nat))),
{
}

/// In a phase, the manifold hook comes first, if it comes at all.
pub proof fn lemma_manifold_comes_first(filter: &Filter, manifold: &Manifold)
    requires
        filter.spec_matches_manifold(),
    ensures
        next_from(filter, manifold, Cursor { stage: Stage::Manifold, object: 0, item: 0 }) == (
            Some(Step::Manifold),
            Cursor { stage: Stage::Object, object: 0, item: 0 },
        ),
{
}

// ——————————————————————————————— Execution ———————————————————————————————— //
/// A hook of a module gave up.
#[derive(Debug)]
pub struct DriveError {
    /// Name of the phase that ran.
    pub phase: String,
    /// Name of the module that gave up.
    pub module: &'static str,
    /// What the module was applied to.
    pub step: Step,
    /// Path of the object that the step was about, where it was about one.
    pub path: Option<Vec<u8>>,
    /// Why it gave up.
    pub error: ModuleError,
}

/// Whether the handle that comes with `step` designates an item of `manifold`.
pub open spec fn live(step: Step, manifold: &Manifold) -> bool {
    match step {
        Step::Manifold => true,
        Step::Object(h) => manifold.objects.contains(h),
        Step::Segment(h) => manifold.segments.contains(h),
        Step::Section(h) => manifold.sections.contains(h),
    }
}

/// Whether `outcome` is what the hook that `step` names gave when it was called with the
/// module `m` and the manifold `f`, on what `step` designates. What the two were before the
/// call and what the call made of them is read off `m` and `f`.
pub open spec fn hooked<M: Module>(step: Step, m: &mut M, f: &mut Manifold, outcome: Result<(), ModuleError>) -> bool {
    match step {
        Step::Manifold => call_ensures(M::process_manifold, (m, f), outcome),
        Step::Object(h) => call_ensures(M::process_object, (m, h, f), outcome),
        Step::Segment(h) => call_ensures(M::process_segment, (m, h, f), outcome),
        Step::Section(h) => call_ensures(M::process_section, (m, h, f), outcome),
    }
}

/// Calls the hook of `module` that `step` names, on what `step` designates, and returns what
/// the hook returns. The module and the manifold are left as the hook leaves them.
pub fn call_hook<M: Module>(module: &mut M, step: Step, manifold: &mut Manifold) -> (r: Result<(), ModuleError>)
    requires
        old(manifold).wf(),
        live(step, old(manifold)),
    ensures
        exists|m: &mut M, f: &mut Manifold|
            {
                &&& #[trigger] hooked(step, m, f, r)
                &&& *m == *old(module)
                &&& *f == *old(manifold)
                &&& *final(m) == *final(module)
                &&& *final(f) == *final(manifold)
            },
        final(manifold).wf(),
        grown(old(manifold), final(manifold)),
{
    match step {
        Step::Manifold => {
            let r = module.process_manifold(manifold);
            proof {
                let (m, f) = choose|m: &mut M, f: &mut Manifold|
                    {
                        &&& #[trigger] call_ensures(M::process_manifold, (m, f), r)
                        &&& *m == *old(module)
                        &&& *f == *old(manifold)
                        &&& *final(m) == *module
                        &&& *final(f) == *manifold
                    };
                assert(hooked(step, m, f, r));
            }
            r
        },
        Step::Object(h) => {
            let r = module.process_object(h, manifold);
            proof {
                let (m, f) = choose|m: &mut M, f: &mut Manifold|
                    {
                        &&& #[trigger] call_ensures(M::process_object, (m, h, f), r)
                        &&& *m == *old(module)
                        &&& *f == *old(manifold)
                        &&& *final(m) == *module
                        &&& *final(f) == *manifold
                    };
                assert(hooked(step, m, f, r));
            }
            r
        },
        Step::Segment(h) => {
            let r = module.process_segment(h, manifold);
            proof {
                let (m, f) = choose|m: &mut M, f: &mut Manifold|
                    {
                        &&& #[trigger] call_ensures(M::process_segment, (m, h, f), r)
                        &&& *m == *old(module)
                        &&& *f == *old(manifold)
                        &&& *final(m) == *module
                        &&& *final(f) == *manifold
                    };
                assert(hooked(step, m, f, r));
            }
            r
        },
        Step::Section(h) => {
            let r = module.process_section(h, manifold);
            proof {
                let (m, f) = choose|m: &mut M, f: &mut Manifold|
                    {
                        &&& #[trigger] call_ensures(M::process_section, (m, h, f), r)
                        &&& *m == *old(module)
                        &&& *f == *old(manifold)
                        &&& *final(m) == *module
                        &&& *final(f) == *manifold
                    };
                assert(hooked(step, m, f, r));
            }
            r
        },
    }
}

/// The object that `step` is about: the object itself, or the owner of the segment or of the
/// section, where the manifold holds it; none for the manifold as a whole.
pub open spec fn spec_owner(step: Step, manifold: &Manifold) -> Option<Handle<Object>> {
    match step {
        Step::Manifold => None,
        Step::Object(h) => Some(h),
        Step::Segment(h) => match manifold.segments.spec_get(h) {
            Some(s) => Some(s.obj),
            None => None,
        },
        Step::Section(h) => match manifold.sections.spec_get(h) {
            Some(s) => Some(s.obj),
            None => None,
        },
    }
}

/// The path of the object that `step` is about, where the manifold holds that object.
pub open spec fn spec_path_of(step: Step, manifold: &Manifold) -> Option<Seq<u8>> {
    match spec_owner(step, manifold) {
        None => None,
        Some(h) => match manifold.objects.spec_get(h) {
            Some(obj) => Some(obj.path@),
            None => None,
        },
    }
}

/// Whether `path` holds the bytes of `want`, or is none as `want` is.
pub open spec fn same_path(path: Option<Vec<u8>>, want: Option<Seq<u8>>) -> bool {
    match want {
        None => path.is_none(),
        Some(bytes) => {
            &&& path matches Some(v)
            &&& v@ == bytes
        },
    }
}

/// The path of the object that `step` is about.
fn path_of(step: &Step, manifold: &Manifold) -> (p: Option<Vec<u8>>)
    ensures
        same_path(p, spec_path_of(*step, manifold)),
{
    let owner = match step {
        Step::Manifold => None,
        Step::Object(h) => Some(*h),
        Step::Segment(h) => match manifold.segments.get(*h) {
            Some(s) => Some(s.obj),
            None => None,
        },
        Step::Section(h) => match manifold.sections.get(*h) {
            Some(s) => Some(s.obj),
            None => None,
        },
    };
    match owner {
        None => None,
        Some(h) => match manifold.objects.get(h) {
            Some(obj) => Some(crate::bytes::to_vec(obj.path.as_slice())),
            None => None,
        },
    }
}

/// Whether `report` says that the hook of `module` for `step` gave up with `error` in the
/// phase named `name`, for the manifold as the hook left it: it names the phase, the module by
/// the name that the module gives itself, the step, the path of the object that the step is
/// about, and the error.
pub open spec fn reports<M: Module>(
    report: DriveError,
    name: Seq<char>,
    module: &M,
    step: Step,
    manifold: &Manifold,
    error: ModuleError,
) -> bool {
    &&& report.phase@ == name
    &&& call_ensures(M::name, (module,), report.module)
    &&& report.step == step
    &&& same_path(report.path, spec_path_of(step, manifold))
    &&& report.error == error
}

/// What a phase makes of the outcome of a hook: success stays success; an error ends the phase
/// with a report that names the phase, the module, the step, the object and the error.
pub fn settle<M: Module>(
    name: &String,
    module: &M,
    step: Step,
    manifold: &Manifold,
    outcome: Result<(), ModuleError>,
) -> (r: Result<(), DriveError>)
    ensures
        match outcome {
            Ok(_) => r is Ok,
            Err(error) => {
                &&& r matches Err(report)
                &&& reports(report, name@, module, step, manifold, error)
            },
        },
{
    match outcome {
        Ok(_) => Ok(()),
        Err(error) => Err(
            DriveError {
                phase: name.clone(),
                module: module.name(),
                step,
                path: path_of(&step, manifold),
                error,
            },
        ),
    }
}

/// A number that goes down with every step of a phase.
pub open spec fn steps_left(cursor: Cursor) -> (int, int, int) {
    match cursor.stage {
        Stage::Manifold => (usize::MAX + 2, 0, 0),
        Stage::Done => (0, 0, 0),
        _ => (usize::MAX - cursor.object + 1, 4 - stage_rank(cursor.stage), usize::MAX - cursor.item),
    }
}

/// Applies the module of `phase` to the manifold: to the manifold as a whole where the filter
/// matches it, then to every object in load order, and for each object to the object itself,
/// then to its segments, then to its sections, each where the filter matches.
///
/// Objects, segments and sections that the module adds are visited in the same phase. The
/// first hook that gives up ends the phase with its error.
///
/// The phase is a run of hook calls. `steps` below holds what the hooks were called on and
/// `outcomes` what they returned; `cursors`, `modules` and `states` hold the place in the
/// schedule, the module and the manifold before each call and after the last. Each step is
/// the one that the schedule gives at its place for the manifold as it is then, and each hook
/// is handed the module and the manifold as the call before it left them. Only the last call
/// can have given up, and the phase then ends with the report of that. A phase that succeeds
/// ends where the schedule has nothing left to give.
pub fn drive_phase<M: Module>(phase: &mut Phase<M>, manifold: &mut Manifold) -> (r: Result<(), DriveError>)
    requires
        old(manifold).wf(),
    ensures
        final(manifold).wf(),
        grown(old(manifold), final(manifold)),
        final(phase).name == old(phase).name,
        final(phase).filter == old(phase).filter,
        r matches Err(e) ==> e.phase@ == old(phase).name@,
        next_from(
            &old(phase).filter,
            old(manifold),
            Cursor { stage: Stage::Manifold, object: 0, item: 0 },
        ).0 is None ==> {
            &&& r is Ok
            &&& *final(manifold) == *old(manifold)
            &&& final(phase).module == old(phase).module
        },
        exists|
            steps: Seq<Step>,
            outcomes: Seq<Result<(), ModuleError>>,
            cursors: Seq<Cursor>,
            modules: Seq<M>,
            states: Seq<Manifold>,
        |
            {
                &&& outcomes.len() == steps.len()
                &&& cursors.len() == steps.len() + 1
                &&& modules.len() == steps.len() + 1
                &&& states.len() == steps.len() + 1
                &&& cursors[0] == (Cursor { stage: Stage::Manifold, object: 0, item: 0 })
                &&& modules[0] == old(phase).module
                &&& states[0] == *old(manifold)
                &&& modules.last() == final(phase).module
                &&& states.last() == *final(manifold)
                &&& forall|i: int|
                    0 <= i < steps.len() ==> {
                        let step = #[trigger] steps[i];
                        &&& next_from(&old(phase).filter, &states[i], cursors[i]) == (
                            Some(step),
                            cursors[i + 1],
                        )
                        &&& exists|m: &mut M, f: &mut Manifold|
                            {
                                &&& #[trigger] hooked(step, m, f, outcomes[i])
                                &&& *m == modules[i]
                                &&& *f == states[i]
                                &&& *final(m) == modules[i + 1]
                                &&& *final(f) == states[i + 1]
                            }
                    }
                &&& forall|i: int| 0 <= i < outcomes.len() - 1 ==> (#[trigger] outcomes[i]) is Ok
                &&& match r {
                    Ok(_) => {
                        &&& outcomes.len() > 0 ==> outcomes.last() is Ok
                        &&& next_from(&old(phase).filter, final(manifold), cursors.last()).0 is None
                    },
                    Err(report) => {
                        &&& outcomes.len() > 0
                        &&& outcomes.last() matches Err(error)
                        &&& reports(
                            report,
                            old(phase).name@,
                            &final(phase).module,
                            steps.last(),
                            final(manifold),
                            error,
                        )
                    },
                }
            },
{
    let mut cursor = Cursor::start();
    let ghost mut steps: Seq<Step> = Seq::empty();
    let ghost mut outcomes: Seq<Result<(), ModuleError>> = Seq::empty();
    let ghost mut cursors: Seq<Cursor> = seq![cursor];
    let ghost mut modules: Seq<M> = seq![phase.module];
    let ghost mut states: Seq<Manifold> = seq![*manifold];
    loop
        invariant
            manifold.wf(),
            grown(old(manifold), manifold),
            phase.name == old(phase).name,
            phase.filter == old(phase).filter,
            outcomes.len() == steps.len(),
            cursors.len() == steps.len() + 1,
            modules.len() == steps.len() + 1,
            states.len() == steps.len() + 1,
            cursors[0] == (Cursor { stage: Stage::Manifold, object: 0, item: 0 }),
            modules[0] == old(phase).module,
            states[0] == *old(manifold),
            cursors.last() == cursor,
            modules.last() == phase.module,
            states.last() == *manifold,
            forall|i: int|
                0 <= i < steps.len() ==> {
                    let step = #[trigger] steps[i];
                    &&& next_from(&old(phase).filter, &states[i], cursors[i]) == (
                        Some(step),
                        cursors[i + 1],
                    )
                    &&& exists|m: &mut M, f: &mut Manifold|
                        {
                            &&& #[trigger] hooked(step, m, f, outcomes[i])
                            &&& *m == modules[i]
                            &&& *f == states[i]
                            &&& *final(m) == modules[i + 1]
                            &&& *final(f) == states[i + 1]
                        }
                },
            forall|i: int| 0 <= i < outcomes.len() ==> (#[trigger] outcomes[i]) is Ok,
        decreases steps_left(cursor).0, steps_left(cursor).1, steps_left(cursor).2,
    {
        let ghost at = cursor;
        let step = match next_step(&phase.filter, manifold, &mut cursor) {
            None => {
                proof {
                    if steps.len() > 0 {
                        assert(next_from(&old(phase).filter, &states[0], cursors[0]).0 == Some(steps[0]));
                    }
                }
                return Ok(());
            },
            Some(step) => step,
        };
        let ghost then_steps = steps;
        let ghost then_outcomes = outcomes;
        let ghost then_cursors = cursors;
        let ghost then_modules = modules;
        let ghost then_states = states;
        let outcome = call_hook(&mut phase.module, step, manifold);
        proof {
            steps = then_steps.push(step);
            outcomes = then_outcomes.push(outcome);
            cursors = then_cursors.push(cursor);
            modules = then_modules.push(phase.module);
            states = then_states.push(*manifold);
            let n = then_steps.len() as int;
            assert forall|i: int| 0 <= i < steps.len() implies {
                let step = #[trigger] steps[i];
                &&& next_from(&old(phase).filter, &states[i], cursors[i]) == (
                    Some(step),
                    cursors[i + 1],
                )
                &&& exists|m: &mut M, f: &mut Manifold|
                    {
                        &&& #[trigger] hooked(step, m, f, outcomes[i])
                        &&& *m == modules[i]
                        &&& *f == states[i]
                        &&& *final(m) == modules[i + 1]
                        &&& *final(f) == states[i + 1]
                    }
            } by {
                if i < n {
                    assert(steps[i] == then_steps[i]);
                    assert(outcomes[i] == then_outcomes[i]);
                    assert(cursors[i] == then_cursors[i]);
                    assert(cursors[i + 1] == then_cursors[i + 1]);
                    assert(modules[i] == then_modules[i]);
                    assert(modules[i + 1] == then_modules[i + 1]);
                    assert(states[i] == then_states[i]);
                    assert(states[i + 1] == then_states[i + 1]);
                } else {
                    assert(steps[i] == step);
                    assert(outcomes[i] == outcome);
                    assert(cursors[i] == at);
                    assert(cursors[i + 1] == cursor);
                    assert(modules[i] == then_modules.last());
                    assert(states[i] == then_states.last());
                }
            }
            assert forall|i: int| 0 <= i < outcomes.len() - 1 implies (#[trigger] outcomes[i]) is Ok by {
                assert(outcomes[i] == then_outcomes[i]);
            }
        }
        match settle(&phase.name, &phase.module, step, manifold, outcome) {
            Ok(_) => {},
            Err(report) => {
                proof {
                    assert(next_from(&old(phase).filter, &states[0], cursors[0]).0 == Some(steps[0]));
                    assert(outcomes.last() == outcome);
                    assert(steps.last() == step);
                    assert(outcome is Err);
                    assert(reports(report, old(phase).name@, &phase.module, step, manifold, outcome->Err_0));
                    assert(states.last() == *manifold);
                    assert(modules.last() == phase.module);
                    assert(cursors[0] == (Cursor { stage: Stage::Manifold, object: 0, item: 0 }));
                    assert(modules[0] == old(phase).module);
                    assert(states[0] == *old(manifold));
                }
                return Err(report);
            },
        }
    }
}

/// Applies the phases to the manifold, in the order of the list. The first hook that gives up
/// ends the run with its error.
///
/// The phases are driven one after the other from the first on, each on the manifold as the
/// phase before it left it, until one gives up or the list ends. `outcomes` below holds what
/// the phases that ran returned, `states` the manifold before each of them and after the
/// last. Only the last phase that ran can have given up, and the run returns what it returned;
/// a run that succeeds has driven every phase. The phases that did not run are unchanged.
pub fn run_phases<M: Module>(phases: &mut Vec<Phase<M>>, manifold: &mut Manifold) -> (r: Result<(), DriveError>)
    requires
        old(manifold).wf(),
    ensures
        final(manifold).wf(),
        grown(old(manifold), final(manifold)),
        final(phases)@.len() == old(phases)@.len(),
        exists|states: Seq<Manifold>, outcomes: Seq<Result<(), DriveError>>|
            {
                &&& states.len() == outcomes.len() + 1
                &&& outcomes.len() <= old(phases)@.len()
                &&& states[0] == *old(manifold)
                &&& states.last() == *final(manifold)
                &&& forall|i: int|
                    0 <= i < outcomes.len() ==> {
                        let outcome = #[trigger] outcomes[i];
                        exists|p: &mut Phase<M>, f: &mut Manifold|
                            {
                                &&& #[trigger] call_ensures(drive_phase::<M>, (p, f), outcome)
                                &&& *p == old(phases)@[i]
                                &&& *f == states[i]
                                &&& *final(p) == final(phases)@[i]
                                &&& *final(f) == states[i + 1]
                            }
                    }
                &&& forall|i: int| 0 <= i < outcomes.len() - 1 ==> (#[trigger] outcomes[i]) is Ok
                &&& forall|i: int|
                    outcomes.len() <= i < old(phases)@.len() ==> (#[trigger] final(phases)@[i]) == old(
                        phases,
                    )@[i]
                &&& r is Ok ==> outcomes.len() == old(phases)@.len()
                &&& r == if outcomes.len() == 0 {
                    Ok::<(), DriveError>(())
                } else {
                    outcomes.last()
                }
            },
{
    let mut k: usize = 0;
    let ghost mut states: Seq<Manifold> = seq![*manifold];
    let ghost mut outcomes: Seq<Result<(), DriveError>> = Seq::empty();
    while k < phases.len()
        invariant
            manifold.wf(),
            grown(old(manifold), manifold),
            phases@.len() == old(phases)@.len(),
            k <= phases@.len(),
            outcomes.len() == k,
            states.len() == k + 1,
            states[0] == *old(manifold),
            states.last() == *manifold,
            forall|i: int|
                0 <= i < outcomes.len() ==> {
                    let outcome = #[trigger] outcomes[i];
                    exists|p: &mut Phase<M>, f: &mut Manifold|
                        {
                            &&& #[trigger] call_ensures(drive_phase::<M>, (p, f), outcome)
                            &&& *p == old(phases)@[i]
                            &&& *f == states[i]
                            &&& *final(p) == phases@[i]
                            &&& *final(f) == states[i + 1]
                        }
                },
            forall|i: int| 0 <= i < outcomes.len() ==> (#[trigger] outcomes[i]) is Ok,
            forall|i: int| k <= i < phases@.len() ==> (#[trigger] phases@[i]) == old(phases)@[i],
        decreases phases@.len() - k,
    {
        let ghost earlier = phases@;
        let ghost seen = outcomes;
        let ghost passed = states;
        let phase = &mut phases[k];
        let outcome = drive_phase(phase, manifold);
        proof {
            outcomes = seen.push(outcome);
            states = passed.push(*manifold);
            assert(phases@ == earlier.update(k as int, phases@[k as int]));
            assert forall|i: int| 0 <= i < outcomes.len() implies {
                let outcome = #[trigger] outcomes[i];
                exists|p: &mut Phase<M>, f: &mut Manifold|
                    {
                        &&& #[trigger] call_ensures(drive_phase::<M>, (p, f), outcome)
                        &&& *p == old(phases)@[i]
                        &&& *f == states[i]
                        &&& *final(p) == phases@[i]
                        &&& *final(f) == states[i + 1]
                    }
            } by {
                if i < k {
                    assert(outcomes[i] == seen[i]);
                    assert(states[i] == passed[i]);
                    assert(states[i + 1] == passed[i + 1]);
                    assert(phases@[i] == earlier[i]);
                }
            }
        }
        match outcome {
            Ok(_) => {},
            Err(e) => {
                proof {
                    assert(outcomes.last() == Err::<(), DriveError>(e));
                    assert forall|i: int| 0 <= i < outcomes.len() - 1 implies (#[trigger] outcomes[i]) is Ok by {
                        assert(outcomes[i] == seen[i]);
                    }
                    assert(states.len() == outcomes.len() + 1);
                    assert(states.last() == *manifold);
                    assert(states[0] == *old(manifold));
                    assert forall|i: int| outcomes.len() <= i < old(phases)@.len() implies (#[trigger] phases@[i]) == old(phases)@[i] by {
                        assert(phases@[i] == earlier[i]);
                    }
                }
                return Err(e);
            },
        }
        proof {
            assert forall|i: int| 0 <= i < outcomes.len() implies (#[trigger] outcomes[i]) is Ok by {
                if i < k {
                    assert(outcomes[i] == seen[i]);
                }
            }
        }
        k = k + 1;
    }
    proof {
        assert(outcomes.len() == old(phases)@.len());
        if outcomes.len() > 0 {
            assert(outcomes.last() is Ok);
            assert(outcomes.last()->Ok_0 == ());
            assert(outcomes.last() == Ok::<(), DriveError>(()));
        }
    }
    Ok(())
}

/// The key under which the shared memory of the manifold holds the handle of the program
/// itself.
pub open spec fn spec_initial_elf_key() -> ShareMapKey<Handle<Object>> {
    ShareMapKey::named("initial-elf")
}

/// The key under which the shared memory of the manifold holds the handle of the program
/// itself.
pub fn initial_elf_key() -> (k: ShareMapKey<Handle<Object>>)
    ensures
        k == spec_initial_elf_key(),
{
    ShareMapKey::new("initial-elf")
}

/// Why a run ended early.
#[derive(Debug)]
pub enum RunError {
    /// The program is no ELF file that the manifold takes.
    Target(FoldError),
    /// A hook of a module gave up.
    Phase(DriveError),
}

/// Whether `start` is the manifold that a run of `fold` on the program of content `raw` hands
/// to its phases: made for the execution context of `fold`, with the program as its only
/// object, ingested under the path of the target, and with the initial shared memory of
/// `fold`, to which the handle of the program was added under [`initial_elf_key`].
pub open spec fn start_of_run<M>(start: &Manifold, fold: &Fold<M>, raw: Seq<u8>) -> bool {
    let program = Handle::<Object>::at(0);
    let key = spec_initial_elf_key();
    &&& start.wf()
    &&& exists|bare: Manifold, loaded: Manifold|
        {
            &&& bare.objects@.len() == 0
            &&& bare.segments@.len() == 0
            &&& bare.sections@.len() == 0
            &&& bare.shared == fold.initial_share_map
            &&& bare.env == fold.config.env
            &&& #[trigger] loaded.ingested(&bare, program, raw, fold.config.target@)
            &&& start.objects == loaded.objects
            &&& start.segments == loaded.segments
            &&& start.sections == loaded.sections
            &&& start.env == loaded.env
        }
    &&& start.shared.spec_get(key) == Some(program)
    &&& forall|name: Seq<u8>|
        name != key.name() ==> start.shared.lookup(name) == fold.initial_share_map.lookup(name)
}

impl<M: Module> Fold<M> {
    /// Executes the modules of the chain on a manifold built from the execution context and
    /// the content `file` of the program to link.
    ///
    /// The manifold starts with the initial shared memory and the program as its first object,
    /// whose handle is stored under [`initial_elf_key`]. Where the program is refused, no phase
    /// runs and the run ends with the reason. Else the phases of the chain are run on that
    /// manifold, in order: where one gives up, the run ends with its report; where none does,
    /// the run returns the manifold as the last phase left it.
    pub fn run(self, file: Mapping) -> (r: Result<Manifold, RunError>)
        ensures
            r matches Ok(manifold) ==> manifold.wf() && manifold.objects@.len() >= 1,
            match ingest_defect(file@) {
                Some(e) => r == Err::<Manifold, RunError>(RunError::Target(e)),
                None => exists|
                    p: &mut Vec<Phase<M>>,
                    f: &mut Manifold,
                    outcome: Result<(), DriveError>,
                |
                    {
                        &&& #[trigger] call_ensures(run_phases::<M>, (p, f), outcome)
                        &&& *p == self.phases
                        &&& start_of_run(&*f, &self, file@)
                        &&& r == match outcome {
                            Ok(_) => Ok::<Manifold, RunError>(*final(f)),
                            Err(e) => Err::<Manifold, RunError>(RunError::Phase(e)),
                        }
                    },
            },
    {
        let mut fold = self;
        let mut manifold = Manifold::new(fold.config.env, fold.initial_share_map);
        let ghost bare = manifold;
        let target = match manifold.add_elf_file(file, fold.config.target) {
            Err(e) => {
                return Err(RunError::Target(e));
            },
            Ok(h) => h,
        };
        let ghost loaded = manifold;
        manifold.shared.insert(initial_elf_key(), target);
        proof {
            crate::manifold::lemma_wf_ignores_shared(loaded, manifold);
            Handle::<Object>::lemma_at_index(0);
            target.lemma_same_index(Handle::<Object>::at(0));
            assert(loaded.ingested(&bare, Handle::<Object>::at(0), file@, self.config.target@));
            assert(start_of_run(&manifold, &self, file@));
        }
        match run_phases(&mut fold.phases, &mut manifold) {
            Ok(_) => Ok(manifold),
            Err(e) => Err(RunError::Phase(e)),
        }
    }
}

// ——————————————————————————————— Default chain ——————————————————————————————— //
/// The position of the last `/` of `path` before `upto`, or -1 where there is none.
pub open spec fn last_slash(path: Seq<u8>, upto: int) -> int
    decreases upto,
{
    if upto <= 0 || upto > path.len() {
        -1
    } else if path[upto - 1] == 0x2F {
        upto - 1
    } else {
        last_slash(path, upto - 1)
    }
}

/// The directory of the file `path`: what comes before the last `/`, or `.` where the path
/// has none.
pub open spec fn spec_directory(path: Seq<u8>) -> Seq<u8> {
    let at = last_slash(path, path.len() as int);
    if at < 0 {
        seq![0x2Eu8]
    } else {
        path.subrange(0, at)
    }
}

/// The directory of the file `path`.
pub fn directory(path: &[u8]) -> (dir: Vec<u8>)
    ensures
        dir@ == spec_directory(path@),
{
    let mut k: usize = path.len();
    while k > 0
        invariant
            k <= path@.len(),
            last_slash(path@, path@.len() as int) == last_slash(path@, k as int),
        decreases k,
    {
        if path[k - 1] == 0x2F {
            return crate::bytes::to_vec(vstd::slice::slice_subrange(path, 0, k - 1));
        }
        k = k - 1;
    }
    let mut dir: Vec<u8> = Vec::new();
    dir.push(0x2E);
    assert(dir@ =~= seq![0x2Eu8]);
    dir
}

/// The names of the phases of the default chain, in order.
pub open spec fn default_phase_names() -> Seq<&'static str> {
    seq![
        "collect",
        "load",
        "musl-locator",
        "tls-collector",
        "tls-allocator",
        "tls-relocator",
        "relocation",
        "protect",
        "start",
    ]
}

/// The filter of phase `k` of the default chain, as its list of alternatives: the collector is
/// applied to the dynamic sections, the loader and the protector to the loadable segments, the
/// relocator of thread-local storage to the relocation sections, the locator and the allocator
/// to the manifold, and the collector of thread-local storage, the relocator and the starter to
/// every object.
pub open spec fn default_filter(k: int) -> Seq<ItemFilter> {
    let all = ObjectFilter { mask: ObjectMask::Any, os_abi: 0, elf_type: 0 };
    if k == 0 {
        seq![ItemFilter::Section(Some(SectionID { tag: crate::elf::SHT_DYNAMIC }), all)]
    } else if k == 1 || k == 7 {
        seq![ItemFilter::Segment(Some(SegmentID { tag: crate::elf::PT_LOAD }), all)]
    } else if k == 2 || k == 4 {
        seq![ItemFilter::Manifold]
    } else if k == 5 {
        seq![ItemFilter::Section(Some(SectionID { tag: crate::elf::SHT_RELA }), all)]
    } else {
        seq![ItemFilter::Object(all)]
    }
}

/// Whether `module` is the module of phase `k` of the default chain, in its first state.
pub open spec fn is_default_module(k: int, module: SysvModule) -> bool {
    if k == 0 {
        module matches SysvModule::RemappingCollector(c) && c.map@.len() == 0
    } else if k == 1 {
        module is Loader
    } else if k == 2 {
        module is MuslLocator
    } else if k == 3 {
        module matches SysvModule::TlsCollector(c) && c.last_offset == 0 && c.module_id_alloc == 2
    } else if k == 4 {
        module is TlsAllocator
    } else if k == 5 {
        module is TlsRelocator
    } else if k == 6 {
        module matches SysvModule::Reloc(r) && r.done().len() == 0
    } else if k == 7 {
        module is Protect
    } else {
        module is Start
    }
}

/// The directories that the default chain looks for libraries in, after the directory of the
/// program.
pub open spec fn default_search_paths() -> Seq<&'static str> {
    seq!["musl/lib", "/lib", "/lib64", "/usr/lib/"]
}

/// The starts of the names of the libraries that the default chain drops: the C library
/// brings what they hold.
pub open spec fn default_dropped() -> Seq<&'static str> {
    seq![
        "ld-linux-x86-64.so",
        "libcrypt.so",
        "libdl.so",
        "libm.so",
        "libpthread.so",
        "libresolv.so",
        "librt.so",
        "libutil.so",
        "libxnet.so",
    ]
}

/// Whether `map` is the remapping of the default chain: every library whose name starts with
/// `libc.so` is replaced by `libc.so`, and the libraries of [`default_dropped`] are dropped.
pub open spec fn is_default_remap(map: Seq<RemapEntry>) -> bool {
    &&& map.len() == 10
    &&& map[0].prefix@ == "libc.so".spec_bytes()
    &&& map[0].target matches Some(t)
    &&& t@ == "libc.so".spec_bytes()
    &&& forall|i: int|
        0 <= i < 9 ==> (#[trigger] map[i + 1]).prefix@ == default_dropped()[i].spec_bytes()
            && map[i + 1].target.is_none()
}

impl Fold<SysvModule> {
    /// Creates a chain of the modules that link System V executables for x86-64, or `None`
    /// where the arguments name no program to link.
    ///
    /// The phases are those of [`default_phase_names`]. The initial shared memory holds the
    /// search paths, which start with the directory of the program, and the remapping that has
    /// the musl C library loaded in place of any other.
    ///
    /// See [`Fold::new`] for the arguments.
    pub fn default_chain(env: Env, linker_name: &str) -> (r: Option<Fold<SysvModule>>)
        ensures
            match spec_find_target(env.args@, linker_name.spec_bytes()) {
                None => r.is_none(),
                Some(i) => {
                    &&& r matches Some(fold)
                    &&& fold.config.target@ == env.args@[i].bytes@
                    &&& fold.config.env == env
                    &&& fold.phases@.len() == 9
                    &&& forall|k: int|
                        0 <= k < 9 ==> {
                            &&& (#[trigger] fold.phases@[k]).name@ == default_phase_names()[k]@
                            &&& fold.phases@[k].filter.items@ == default_filter(k)
                            &&& is_default_module(k, fold.phases@[k].module)
                        }
                    &&& fold.initial_share_map.spec_get(spec_search_paths_key()) matches Some(
                        paths,
                    )
                    &&& paths@.len() == 5
                    &&& paths@[0]@ == spec_directory(env.args@[i].bytes@)
                    &&& forall|k: int|
                        0 <= k < 4 ==> (#[trigger] paths@[k + 1])@
                            == default_search_paths()[k].spec_bytes()
                    &&& fold.initial_share_map.spec_get(spec_remap_key()) matches Some(map)
                    &&& is_default_remap(map@)
                },
            },
    {
        let fold = match Fold::<SysvModule>::new(env, linker_name) {
            None => {
                return None;
            },
            Some(fold) => fold,
        };
        let fold = fold.register(
            "collect",
            SysvModule::RemappingCollector(SysvRemappingCollector::new()),
            Filter::section_type(crate::elf::SHT_DYNAMIC),
        );
        let fold = fold.register(
            "load",
            SysvModule::Loader(SysvLoader::new()),
            Filter::segment_type(crate::elf::PT_LOAD),
        );
        let fold = fold.register(
            "musl-locator",
            SysvModule::MuslLocator(crate::musl::MuslLocator::new()),
            Filter::manifold(),
        );
        let fold = fold.register(
            "tls-collector",
            SysvModule::TlsCollector(TlsCollector::new()),
            Filter::any_object(),
        );
        let fold = fold.register(
            "tls-allocator",
            SysvModule::TlsAllocator(TlsAllocator::new()),
            Filter::manifold(),
        );
        let fold = fold.register(
            "tls-relocator",
            SysvModule::TlsRelocator(TlsRelocator::new()),
            Filter::section_type(crate::elf::SHT_RELA),
        );
        let fold = fold.register(
            "relocation",
            SysvModule::Reloc(SysvReloc::new()),
            Filter::any_object(),
        );
        let fold = fold.register(
            "protect",
            SysvModule::Protect(SysvProtect::new()),
            Filter::segment_type(crate::elf::PT_LOAD),
        );
        let mut fold = fold.register(
            "start",
            SysvModule::Start(SysvStart::new()),
            Filter::any_object(),
        );
        // Compute the search paths for shared libraries.
        let mut paths: Vec<Vec<u8>> = Vec::new();
        paths.push(directory(fold.config.target.as_slice()));
        paths.push(crate::bytes::to_vec("musl/lib".as_bytes()));
        paths.push(crate::bytes::to_vec("/lib".as_bytes()));
        paths.push(crate::bytes::to_vec("/lib64".as_bytes()));
        paths.push(crate::bytes::to_vec("/usr/lib/".as_bytes()));
        fold.initial_share_map.insert(search_paths_key(), paths);
        // Replace the versioned libc (e.g. libc.so.6) of the dependencies by musl's libc, and
        // drop what musl's libc brings.
        let collector = SysvRemappingCollector::new();
        let collector = collector.replace("libc.so".as_bytes(), "libc.so".as_bytes());
        let collector = collector.drop("ld-linux-x86-64.so".as_bytes());
        let collector = collector.drop("libcrypt.so".as_bytes());
        let collector = collector.drop("libdl.so".as_bytes());
        let collector = collector.drop("libm.so".as_bytes());
        let collector = collector.drop("libpthread.so".as_bytes());
        let collector = collector.drop("libresolv.so".as_bytes());
        let collector = collector.drop("librt.so".as_bytes());
        let collector = collector.drop("libutil.so".as_bytes());
        let collector = collector.drop("libxnet.so".as_bytes());
        proof {
            reveal_strlit("sysv_collector_search_paths");
            reveal_strlit("sysv_collector_map");
            crate::share_map::lemma_names_differ::<Vec<Vec<u8>>, Vec<RemapEntry>>(
                "sysv_collector_search_paths",
                "sysv_collector_map",
            );
        }
        fold.initial_share_map.insert(remap_key(), collector.map);
        Some(fold)
    }
}

} // verus!
