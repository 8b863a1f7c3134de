//! Collects the dependencies of the objects of a program.
//!
//! The collector reads the names of the libraries that an object needs, replaces or drops
//! names as the remapping says, leaves out what is loaded, and says where each library is to be
//! looked for. Looking at the file system is left to the caller, who hands back the content of
//! each library found.

use crate::arena::Handle;
use crate::bytes::{bytes_eq, is_prefix, starts_with, to_vec};
use crate::elf::{Dyn, ElfItem, ElfItemIterator, DT_NEEDED, SHT_STRTAB};
use crate::error::{FoldError, SysvError};
use crate::file::Mapping;
use crate::manifold::{ingest_defect, Manifold};
use crate::module::grown;
use crate::object::{Object, Section};
use crate::share_map::{ShareMapKey, Shared};
use vstd::prelude::*;

verus! {

/// A dependency that was loaded.
#[derive(Debug)]
pub struct SysvCollectorEntry {
    /// Filename of the dependency
    pub name: Vec<u8>,
    /// Handle to the ELF file of the dependency
    pub obj: Handle<Object>,
}

/// A replacement: what becomes of the dependencies whose name starts with `prefix`.
#[derive(Debug)]
pub struct RemapEntry {
    /// Start of the names that the entry is about.
    pub prefix: Vec<u8>,
    /// The name to load in their place, or `None` where they are dropped.
    pub target: Option<Vec<u8>>,
}

/// The key of the directories in which libraries are looked for, in order.
pub open spec fn spec_search_paths_key() -> ShareMapKey<Vec<Vec<u8>>> {
    ShareMapKey::named("sysv_collector_search_paths")
}

/// The key of the directories in which libraries are looked for, in order.
pub fn search_paths_key() -> (k: ShareMapKey<Vec<Vec<u8>>>)
    ensures
        k == spec_search_paths_key(),
{
    ShareMapKey::new("sysv_collector_search_paths")
}

/// The key of the replacements of dependencies.
pub open spec fn spec_remap_key() -> ShareMapKey<Vec<RemapEntry>> {
    ShareMapKey::named("sysv_collector_map")
}

/// The key of the replacements of dependencies.
pub fn remap_key() -> (k: ShareMapKey<Vec<RemapEntry>>)
    ensures
        k == spec_remap_key(),
{
    ShareMapKey::new("sysv_collector_map")
}

/// The key of the dependencies loaded so far.
pub open spec fn spec_result_key() -> ShareMapKey<Vec<SysvCollectorEntry>> {
    ShareMapKey::named("sysv_collector_result")
}

/// The key of the dependencies loaded so far.
pub fn result_key() -> (k: ShareMapKey<Vec<SysvCollectorEntry>>)
    ensures
        k == spec_result_key(),
{
    ShareMapKey::new("sysv_collector_result")
}

/// The byte strings that the vectors of `names` hold.
pub open spec fn views(names: Seq<Vec<u8>>) -> Seq<Seq<u8>> {
    names.map_values(|v: Vec<u8>| v@)
}

// ————————————————————————————— Reading names —————————————————————————————— //
/// The names that the entries of tag `DT_NEEDED` among `dyns`, from number `from` on, give in
/// the string table `strings`, in order. The first name that cannot be read ends the list with
/// its error.
pub open spec fn needed_from(strings: Section, dyns: Seq<Dyn>, from: int) -> Result<Seq<Seq<u8>>, FoldError>
    decreases dyns.len() - from,
{
    if from < 0 || from >= dyns.len() {
        Ok(Seq::empty())
    } else if dyns[from].d_tag != DT_NEEDED {
        needed_from(strings, dyns, from + 1)
    } else {
        match strings.string_at((dyns[from].d_val as usize) as nat) {
            Err(e) => Err(e),
            Ok(name) => match needed_from(strings, dyns, from + 1) {
                Err(e) => Err(e),
                Ok(rest) => Ok(seq![name] + rest),
            },
        }
    }
}

/// The names of the libraries that the dynamic section `section` asks for.
pub open spec fn spec_read_deps(section: &Section, manifold: &Manifold) -> Result<Seq<Seq<u8>>, FoldError> {
    match section.spec_linked(manifold) {
        Err(e) => Err(e),
        Ok(strings) => if strings.tag != SHT_STRTAB {
            Err(FoldError::InvalidSectionCast { expected: SHT_STRTAB, actual: strings.tag })
        } else {
            needed_from(strings, section.entries::<Dyn>(), 0)
        },
    }
}

/// `acc` followed by `rest`, where `rest` is no error.
pub open spec fn extend(acc: Seq<Seq<u8>>, rest: Result<Seq<Seq<u8>>, FoldError>) -> Result<Seq<Seq<u8>>, FoldError> {
    match rest {
        Err(e) => Err(e),
        Ok(tail) => Ok(acc + tail),
    }
}

/// Returns the names of all dependencies that the dynamic section `section` asks for.
pub fn read_deps(section: Handle<Section>, manifold: &Manifold) -> (r: Result<Vec<Vec<u8>>, FoldError>)
    requires
        manifold.wf(),
        manifold.sections.contains(section),
    ensures
        r matches Ok(names) ==> spec_read_deps(
            &manifold.sections@[section.index() as int],
            manifold,
        ) == Ok::<Seq<Seq<u8>>, FoldError>(views(names@)),
        r matches Err(e) ==> spec_read_deps(&manifold.sections@[section.index() as int], manifold)
            == Err::<Seq<Seq<u8>>, FoldError>(e),
{
    let sec = manifold.sections.index(section);
    assert(manifold.section_owned(section.index() as int));
    let linked = sec.linked(manifold)?;
    let strings = linked.as_string_table()?;
    let mut deps: Vec<Vec<u8>> = Vec::new();
    assert(views(deps@) =~= Seq::<Seq<u8>>::empty());
    if sec.entity_size != Dyn::size() {
        return Ok(deps);
    }
    let mut it = ElfItemIterator::<Dyn>::from_section(sec);
    let ghost dyns = sec.entries::<Dyn>();
    let ghost mut k: int = 0;
    assert(dyns.subrange(0, dyns.len() as int) =~= dyns);
    proof {
        match needed_from(*linked, dyns, 0) {
            Ok(tail) => {
                assert(views(deps@) + tail =~= tail);
            },
            Err(_) => {},
        }
    }
    loop
        invariant
            it.item_size() == Dyn::spec_size(),
            manifold.sections.contains(section),
            *sec == manifold.sections@[section.index() as int],
            sec.spec_linked(manifold) == Ok::<Section, FoldError>(*linked),
            sec.entity_size == Dyn::spec_size(),
            strings.section == linked,
            linked.tag == SHT_STRTAB,
            dyns == sec.entries::<Dyn>(),
            0 <= k <= dyns.len(),
            it.remaining() == dyns.subrange(k, dyns.len() as int),
            needed_from(*linked, dyns, 0) == extend(
                views(deps@),
                needed_from(*linked, dyns, k),
            ),
        decreases it.remaining().len(),
    {
        assert(dyns.subrange(k, dyns.len() as int).len() == dyns.len() - k);
        match it.next() {
            None => {
                assert(views(deps@) + Seq::<Seq<u8>>::empty() =~= views(deps@));
                return Ok(deps);
            },
            Some(entry) => {
                assert(entry == dyns[k]);
                assert(dyns.subrange(k, dyns.len() as int).drop_first() =~= dyns.subrange(
                    k + 1,
                    dyns.len() as int,
                ));
                if entry.d_tag == DT_NEEDED {
                    match strings.get_symbol(entry.d_val as usize) {
                        Err(e) => {
                            return Err(e);
                        },
                        Ok(name) => {
                            let ghost before = views(deps@);
                            deps.push(to_vec(name));
                            proof {
                                assert(views(deps@) =~= before + seq![name@]);
                                match needed_from(*linked, dyns, k + 1) {
                                    Ok(tail) => {
                                        assert(before + (seq![name@] + tail) =~= (before + seq![
                                            name@,
                                        ]) + tail);
                                    },
                                    Err(_) => {},
                                }
                            }
                        },
                    }
                }
                proof {
                    k = k + 1;
                }
            },
        }
    }
}

// ——————————————————————————————— Remapping ———————————————————————————————— //
/// Whether entry `i` of `map` is the replacement for `name`: its prefix starts `name`, no
/// entry has a longer prefix that starts `name`, and no earlier entry has one as long.
pub open spec fn is_best(map: Seq<RemapEntry>, name: Seq<u8>, i: int) -> bool {
    &&& 0 <= i < map.len()
    &&& is_prefix(map[i].prefix@, name)
    &&& forall|j: int|
        0 <= j < map.len() && is_prefix((#[trigger] map[j]).prefix@, name) ==> map[j].prefix@.len()
            <= map[i].prefix@.len()
    &&& forall|j: int|
        0 <= j < i && is_prefix((#[trigger] map[j]).prefix@, name) ==> map[j].prefix@.len()
            < map[i].prefix@.len()
}

/// Whether no entry of `map` is about `name`.
pub open spec fn unmapped(map: Seq<RemapEntry>, name: Seq<u8>) -> bool {
    forall|j: int| 0 <= j < map.len() ==> !is_prefix((#[trigger] map[j]).prefix@, name)
}

/// The entry of `map` that is about `name`: the one with the longest prefix that starts
/// `name`, and of several such the first.
pub fn best_match(map: &[RemapEntry], name: &[u8]) -> (r: Option<usize>)
    ensures
        match r {
            Some(i) => is_best(map@, name@, i as int),
            None => unmapped(map@, name@),
        },
{
    let mut best: Option<usize> = None;
    let mut k: usize = 0;
    while k < map.len()
        invariant
            k <= map@.len(),
            match best {
                Some(i) => {
                    &&& i < k
                    &&& is_prefix(map@[i as int].prefix@, name@)
                    &&& forall|j: int|
                        0 <= j < k && is_prefix((#[trigger] map@[j]).prefix@, name@)
                            ==> map@[j].prefix@.len() <= map@[i as int].prefix@.len()
                    &&& forall|j: int|
                        0 <= j < i && is_prefix((#[trigger] map@[j]).prefix@, name@)
                            ==> map@[j].prefix@.len() < map@[i as int].prefix@.len()
                },
                None => forall|j: int|
                    0 <= j < k ==> !is_prefix((#[trigger] map@[j]).prefix@, name@),
            },
        decreases map@.len() - k,
    {
        if starts_with(name, map[k].prefix.as_slice()) {
            let better = match best {
                Some(i) => map[k].prefix.len() > map[i].prefix.len(),
                None => true,
            };
            if better {
                best = Some(k);
            }
        }
        k = k + 1;
    }
    best
}

/// What becomes of the dependency `name` under the replacements `map`: `None` where it is
/// dropped, the name to load else. A name that no entry is about stays as it is.
pub open spec fn remapped(map: Seq<RemapEntry>, name: Seq<u8>, r: Option<Seq<u8>>) -> bool {
    if unmapped(map, name) {
        r == Some(name)
    } else {
        exists|i: int|
            is_best(map, name, i) && r == match #[trigger] map[i].target {
                Some(t) => Some(t@),
                None => None,
            }
    }
}

/// What becomes of the dependency `name` under the replacements `map`.
pub fn remap(map: &[RemapEntry], name: &[u8]) -> (r: Option<Vec<u8>>)
    ensures
        remapped(
            map@,
            name@,
            match r {
                Some(v) => Some(v@),
                None => None,
            },
        ),
{
    match best_match(map, name) {
        None => Some(to_vec(name)),
        Some(i) => {
            assert(!unmapped(map@, name@)) by {
                assert(is_prefix(map@[i as int].prefix@, name@));
            }
            match &map[i].target {
                Some(t) => Some(to_vec(t.as_slice())),
                None => None,
            }
        },
    }
}

/// Whether a dependency of name `name` is among `loaded`.
pub open spec fn is_loaded(loaded: Seq<SysvCollectorEntry>, name: Seq<u8>) -> bool {
    exists|i: int| 0 <= i < loaded.len() && (#[trigger] loaded[i]).name@ == name
}

/// Whether a dependency of name `name` is among `loaded`.
pub fn already_loaded(loaded: &[SysvCollectorEntry], name: &[u8]) -> (b: bool)
    ensures
        b == is_loaded(loaded@, name@),
{
    let mut i: usize = 0;
    while i < loaded.len()
        invariant
            i <= loaded@.len(),
            forall|j: int| 0 <= j < i ==> (#[trigger] loaded@[j]).name@ != name@,
        decreases loaded@.len() - i,
    {
        if bytes_eq(loaded[i].name.as_slice(), name) {
            return true;
        }
        i = i + 1;
    }
    false
}

// ————————————————————————————— Search paths ——————————————————————————————— //
/// The path of the file `name` in the directory `dir`.
pub open spec fn spec_join(dir: Seq<u8>, name: Seq<u8>) -> Seq<u8> {
    dir + seq![0x2Fu8] + name
}

/// The path of the file `name` in the directory `dir`: the two with a `/` between them.
pub fn join(dir: &[u8], name: &[u8]) -> (path: Vec<u8>)
    ensures
        path@ == spec_join(dir@, name@),
{
    let mut path = to_vec(dir);
    path.push(0x2F);
    let mut i: usize = 0;
    while i < name.len()
        invariant
            i <= name@.len(),
            path@ == dir@ + seq![0x2Fu8] + name@.subrange(0, i as int),
        decreases name@.len() - i,
    {
        path.push(name[i]);
        assert(path@ =~= dir@ + seq![0x2Fu8] + name@.subrange(0, i + 1));
        i = i + 1;
    }
    assert(name@.subrange(0, name@.len() as int) =~= name@);
    path
}

/// The paths at which the library `name` is looked for, in order: one in each directory of
/// `dirs`.
pub fn candidates(dirs: &[Vec<u8>], name: &[u8]) -> (paths: Vec<Vec<u8>>)
    ensures
        paths@.len() == dirs@.len(),
        forall|i: int| 0 <= i < dirs@.len() ==> (#[trigger] paths@[i])@ == spec_join(dirs@[i]@, name@),
{
    let mut paths: Vec<Vec<u8>> = Vec::new();
    let mut i: usize = 0;
    while i < dirs.len()
        invariant
            i <= dirs@.len(),
            paths@.len() == i,
            forall|j: int| 0 <= j < i ==> (#[trigger] paths@[j])@ == spec_join(dirs@[j]@, name@),
        decreases dirs@.len() - i,
    {
        paths.push(join(dirs[i].as_slice(), name));
        i = i + 1;
    }
    paths
}

/// Which of the paths at which a library was looked for is taken: the first at which a file
/// was found. `found` says of each path, in order, whether a file is there. Where no file was
/// found, the library `name` is reported as missing.
pub fn pick(found: &[bool], name: &[u8]) -> (r: Result<usize, SysvError>)
    ensures
        match r {
            Ok(i) => i < found@.len() && found@[i as int] && forall|j: int|
                0 <= j < i ==> !found@[j],
            Err(e) => (forall|j: int| 0 <= j < found@.len() ==> !found@[j]) && (e matches SysvError::DependencyNotFound(
                n,
            ) && n@ == name@),
        },
{
    let mut i: usize = 0;
    while i < found.len()
        invariant
            i <= found@.len(),
            forall|j: int| 0 <= j < i ==> !found@[j],
        decreases found@.len() - i,
    {
        if found[i] {
            return Ok(i);
        }
        i = i + 1;
    }
    Err(SysvError::DependencyNotFound(to_vec(name)))
}

// ——————————————————————————————— Collectors ——————————————————————————————— //
/// The names of `names` from number `from` on that become dependencies to load: each name is
/// replaced as `map` says; what is dropped and what is among `loaded` is left out.
pub open spec fn wanted(
    names: Seq<Seq<u8>>,
    map: Seq<RemapEntry>,
    loaded: Seq<SysvCollectorEntry>,
    out: Seq<Seq<u8>>,
) -> bool {
    exists|picks: Seq<Option<Seq<u8>>>|
        {
            &&& picks.len() == names.len()
            &&& forall|i: int| 0 <= i < names.len() ==> remapped(map, names[i], #[trigger] picks[i])
            &&& out == kept(picks, loaded, 0)
        }
}

/// The names among `picks` from number `from` on that are names and not among `loaded`.
pub open spec fn kept(picks: Seq<Option<Seq<u8>>>, loaded: Seq<SysvCollectorEntry>, from: int) -> Seq<Seq<u8>>
    decreases picks.len() - from,
{
    if from < 0 || from >= picks.len() {
        Seq::empty()
    } else {
        match picks[from] {
            Some(name) if !is_loaded(loaded, name) => seq![name] + kept(picks, loaded, from + 1),
            _ => kept(picks, loaded, from + 1),
        }
    }
}

/// Replaces the names of `names` as `map` says and leaves out what is dropped and what is
/// among `loaded`.
pub fn select_new(names: &[Vec<u8>], map: &[RemapEntry], loaded: &[SysvCollectorEntry]) -> (out: Vec<Vec<u8>>)
    ensures
        wanted(views(names@), map@, loaded@, views(out@)),
{
    let mut out: Vec<Vec<u8>> = Vec::new();
    let ghost mut picks: Seq<Option<Seq<u8>>> = Seq::empty();
    let mut k: usize = 0;
    assert(views(out@) =~= Seq::<Seq<u8>>::empty());
    while k < names.len()
        invariant
            k <= names@.len(),
            picks.len() == k,
            forall|i: int| 0 <= i < k ==> remapped(map@, names@[i]@, #[trigger] picks[i]),
            forall|rest: Seq<Option<Seq<u8>>>| #[trigger]
                kept(picks + rest, loaded@, 0) == views(out@) + kept(
                    picks + rest,
                    loaded@,
                    k as int,
                ),
        decreases names@.len() - k,
    {
        let choice = remap(map, names[k].as_slice());
        let ghost pick: Option<Seq<u8>> = match &choice {
            Some(v) => Some(v@),
            None => None,
        };
        let ghost before = views(out@);
        let ghost old_picks = picks;
        let keep = match &choice {
            Some(name) => !already_loaded(loaded, name.as_slice()),
            None => false,
        };
        if keep {
            match choice {
                Some(name) => {
                    out.push(name);
                },
                None => {},
            }
        }
        proof {
            picks = old_picks.push(pick);
            let added: Seq<Seq<u8>> = if keep {
                seq![pick.unwrap()]
            } else {
                Seq::empty()
            };
            assert(views(out@) =~= before + added);
            assert forall|rest: Seq<Option<Seq<u8>>>| #[trigger]
                kept(picks + rest, loaded@, 0) == views(out@) + kept(
                    picks + rest,
                    loaded@,
                    k + 1,
                ) by {
                let all = picks + rest;
                assert(all =~= old_picks + (seq![pick] + rest));
                assert(all[k as int] == pick);
                assert(kept(all, loaded@, 0) == before + kept(all, loaded@, k as int));
                assert(kept(all, loaded@, k as int) == added + kept(all, loaded@, k + 1));
                assert(before + (added + kept(all, loaded@, k + 1)) =~= (before + added) + kept(
                    all,
                    loaded@,
                    k + 1,
                ));
            }
        }
        k = k + 1;
    }
    proof {
        assert(picks + Seq::<Option<Seq<u8>>>::empty() =~= picks);
        assert(kept(picks, loaded@, 0) == views(out@) + kept(picks, loaded@, k as int));
        assert(views(out@) + Seq::<Seq<u8>>::empty() =~= views(out@));
        assert(views(names@).len() == names@.len());
        assert forall|i: int| 0 <= i < names@.len() implies remapped(
            map@,
            views(names@)[i],
            #[trigger] picks[i],
        ) by {}
    }
    out
}

/// Dependency collector without remapping: every library that an object asks for is loaded
/// under its own name.
#[derive(Debug)]
pub struct SysvCollector {}

/// Dependency collector that replaces or drops dependencies by the start of their name, as the
/// replacements under [`remap_key`] in the shared memory of the manifold say, or its own where
/// the shared memory holds none.
#[derive(Debug)]
pub struct SysvRemappingCollector {
    pub map: Vec<RemapEntry>,
}

impl SysvCollector {
    pub fn new() -> Self {
        Self {  }
    }

    /// Name of the module.
    pub fn name(&self) -> (n: &'static str)
        ensures
            n == "sysv-collector",
    {
        "sysv-collector"
    }

    /// The names of the dependencies that the dynamic section `section` asks for and that are
    /// not loaded yet, in the order in which the section names them.
    pub fn collect(&self, section: Handle<Section>, manifold: &Manifold) -> (r: Result<Vec<Vec<u8>>, SysvError>)
        requires
            manifold.wf(),
            manifold.sections.contains(section),
        ensures
            match spec_read_deps(&manifold.sections@[section.index() as int], manifold) {
                Err(e) => r == Err::<Vec<Vec<u8>>, SysvError>(SysvError::FoldError(e)),
                Ok(names) => r matches Ok(out) && wanted(
                    names,
                    Seq::empty(),
                    spec_loaded(manifold),
                    views(out@),
                ),
            },
    {
        let names = match read_deps(section, manifold) {
            Err(e) => {
                return Err(SysvError::FoldError(e));
            },
            Ok(names) => names,
        };
        let none: Vec<RemapEntry> = Vec::new();
        let empty: Vec<SysvCollectorEntry> = Vec::new();
        let loaded: &[SysvCollectorEntry] = match manifold.shared.get(result_key()) {
            Some(l) => l.as_slice(),
            None => empty.as_slice(),
        };
        Ok(select_new(names.as_slice(), none.as_slice(), loaded))
    }
}

/// The dependencies loaded so far, as the shared memory of the manifold knows them.
pub open spec fn spec_loaded(manifold: &Manifold) -> Seq<SysvCollectorEntry> {
    match manifold.shared.spec_get(spec_result_key()) {
        Some(l) => l@,
        None => Seq::empty(),
    }
}

impl SysvRemappingCollector {
    pub fn new() -> (c: Self)
        ensures
            c.map@.len() == 0,
    {
        Self { map: Vec::new() }
    }

    /// Name of the module.
    pub fn name(&self) -> (n: &'static str)
        ensures
            n == "sysv-remapping-collector",
    {
        "sysv-remapping-collector"
    }

    /// Has the dependencies whose name starts with `old_deps` replaced by `new_deps`.
    pub fn replace(self, old_deps: &[u8], new_deps: &[u8]) -> (c: Self)
        ensures
            c.map@.len() == self.map@.len() + 1,
            c.map@.subrange(0, self.map@.len() as int) == self.map@,
            c.map@.last().prefix@ == old_deps@,
            c.map@.last().target matches Some(t) && t@ == new_deps@,
    {
        let mut c = self;
        c.map.push(RemapEntry { prefix: to_vec(old_deps), target: Some(to_vec(new_deps)) });
        assert(c.map@.subrange(0, self.map@.len() as int) =~= self.map@);
        c
    }

    /// Has the dependencies whose name starts with `deps` dropped.
    pub fn drop(self, deps: &[u8]) -> (c: Self)
        ensures
            c.map@.len() == self.map@.len() + 1,
            c.map@.subrange(0, self.map@.len() as int) == self.map@,
            c.map@.last().prefix@ == deps@,
            c.map@.last().target.is_none(),
    {
        let mut c = self;
        c.map.push(RemapEntry { prefix: to_vec(deps), target: None });
        assert(c.map@.subrange(0, self.map@.len() as int) =~= self.map@);
        c
    }

    /// Has each pair of `entries` applied as [`SysvRemappingCollector::replace`] does, in
    /// order.
    pub fn replace_multiple(self, entries: &[(&[u8], &[u8])]) -> (c: Self)
        ensures
            c.map@.len() == self.map@.len() + entries@.len(),
            c.map@.subrange(0, self.map@.len() as int) == self.map@,
            forall|i: int|
                0 <= i < entries@.len() ==> {
                    let e = #[trigger] c.map@[self.map@.len() + i];
                    &&& e.prefix@ == entries@[i].0@
                    &&& e.target matches Some(t)
                    &&& t@ == entries@[i].1@
                },
    {
        let mut c = self;
        let mut k: usize = 0;
        assert(c.map@.subrange(0, self.map@.len() as int) =~= self.map@);
        while k < entries.len()
            invariant
                k <= entries@.len(),
                c.map@.len() == self.map@.len() + k,
                c.map@.subrange(0, self.map@.len() as int) == self.map@,
                forall|i: int|
                    0 <= i < k ==> {
                        let e = #[trigger] c.map@[self.map@.len() + i];
                        &&& e.prefix@ == entries@[i].0@
                        &&& e.target matches Some(t)
                        &&& t@ == entries@[i].1@
                    },
            decreases entries@.len() - k,
        {
            let ghost before = c.map@;
            c = c.replace(entries[k].0, entries[k].1);
            assert(c.map@.subrange(0, self.map@.len() as int) =~= before.subrange(
                0,
                self.map@.len() as int,
            ));
            assert forall|i: int| 0 <= i < k + 1 implies {
                let e = #[trigger] c.map@[self.map@.len() + i];
                &&& e.prefix@ == entries@[i].0@
                &&& e.target matches Some(t)
                &&& t@ == entries@[i].1@
            } by {
                if i < k {
                    assert(c.map@[self.map@.len() + i] == c.map@.subrange(0, before.len() as int)[self.map@.len() + i]);
                    assert(before[self.map@.len() + i] == c.map@[self.map@.len() + i]);
                }
            }
            k = k + 1;
        }
        c
    }

    /// Has each name of `entries` applied as [`SysvRemappingCollector::drop`] does, in order.
    pub fn drop_multiple(self, entries: &[&[u8]]) -> (c: Self)
        ensures
            c.map@.len() == self.map@.len() + entries@.len(),
            c.map@.subrange(0, self.map@.len() as int) == self.map@,
            forall|i: int|
                0 <= i < entries@.len() ==> {
                    let e = #[trigger] c.map@[self.map@.len() + i];
                    &&& e.prefix@ == entries@[i]@
                    &&& e.target.is_none()
                },
    {
        let mut c = self;
        let mut k: usize = 0;
        assert(c.map@.subrange(0, self.map@.len() as int) =~= self.map@);
        while k < entries.len()
            invariant
                k <= entries@.len(),
                c.map@.len() == self.map@.len() + k,
                c.map@.subrange(0, self.map@.len() as int) == self.map@,
                forall|i: int|
                    0 <= i < k ==> {
                        let e = #[trigger] c.map@[self.map@.len() + i];
                        &&& e.prefix@ == entries@[i]@
                        &&& e.target.is_none()
                    },
            decreases entries@.len() - k,
        {
            let ghost before = c.map@;
            c = c.drop(entries[k]);
            assert(c.map@.subrange(0, self.map@.len() as int) =~= before.subrange(
                0,
                self.map@.len() as int,
            ));
            assert forall|i: int| 0 <= i < k + 1 implies {
                let e = #[trigger] c.map@[self.map@.len() + i];
                &&& e.prefix@ == entries@[i]@
                &&& e.target.is_none()
            } by {
                if i < k {
                    assert(c.map@[self.map@.len() + i] == c.map@.subrange(0, before.len() as int)[self.map@.len() + i]);
                    assert(before[self.map@.len() + i] == c.map@[self.map@.len() + i]);
                }
            }
            k = k + 1;
        }
        c
    }

    /// The replacements that apply: those of the shared memory of the manifold where it holds
    /// some, else the collector's own.
    pub open spec fn spec_effective(&self, manifold: &Manifold) -> Seq<RemapEntry> {
        match manifold.shared.spec_get(spec_remap_key()) {
            Some(m) => m@,
            None => self.map@,
        }
    }

    /// The names of the dependencies that the dynamic section `section` asks for, replaced as
    /// the replacements say, without those dropped and those loaded, in the order in which the
    /// section names them.
    pub fn collect(&self, section: Handle<Section>, manifold: &Manifold) -> (r: Result<Vec<Vec<u8>>, SysvError>)
        requires
            manifold.wf(),
            manifold.sections.contains(section),
        ensures
            match spec_read_deps(&manifold.sections@[section.index() as int], manifold) {
                Err(e) => r == Err::<Vec<Vec<u8>>, SysvError>(SysvError::FoldError(e)),
                Ok(names) => r matches Ok(out) && wanted(
                    names,
                    self.spec_effective(manifold),
                    spec_loaded(manifold),
                    views(out@),
                ),
            },
    {
        let names = match read_deps(section, manifold) {
            Err(e) => {
                return Err(SysvError::FoldError(e));
            },
            Ok(names) => names,
        };
        let map: &[RemapEntry] = match manifold.shared.get(remap_key()) {
            Some(m) => m.as_slice(),
            None => self.map.as_slice(),
        };
        let empty: Vec<SysvCollectorEntry> = Vec::new();
        let loaded: &[SysvCollectorEntry] = match manifold.shared.get(result_key()) {
            Some(l) => l.as_slice(),
            None => empty.as_slice(),
        };
        Ok(select_new(names.as_slice(), map, loaded))
    }
}

/// The paths at which the dependency `name` is looked for, in order: one in each of the search
/// paths of the manifold. Fails where the manifold has no search paths.
pub fn search(manifold: &Manifold, name: &[u8]) -> (r: Result<Vec<Vec<u8>>, SysvError>)
    ensures
        match manifold.shared.spec_get(spec_search_paths_key()) {
            None => r == Err::<Vec<Vec<u8>>, SysvError>(
                SysvError::MissingSharedMapEntry("sysv_collector_search_paths"),
            ),
            Some(dirs) => r matches Ok(paths) && paths@.len() == dirs@.len() && forall|i: int|
                0 <= i < dirs@.len() ==> (#[trigger] paths@[i])@ == spec_join(dirs@[i]@, name@),
        },
{
    match manifold.shared.get(search_paths_key()) {
        None => Err(SysvError::MissingSharedMapEntry("sysv_collector_search_paths")),
        Some(dirs) => Ok(candidates(dirs.as_slice(), name)),
    }
}

/// Whether `after` is `before` with the dependency `name` of the object `owner` loaded from
/// the file `raw` as the object `h`: the file was added to the manifold as its last object,
/// and `owner` depends on the new object. The shared memory of the manifold is as it was.
pub open spec fn dependency_loaded(
    before: &Manifold,
    after: &Manifold,
    owner: Handle<Object>,
    name: Seq<u8>,
    raw: Seq<u8>,
    h: Handle<Object>,
) -> bool {
    &&& h.index() == before.objects@.len()
    &&& after.objects@.len() == before.objects@.len() + 1
    &&& after.objects@[h.index() as int].has_header_of(raw, name)
    &&& after.objects@[owner.index() as int].dependencies@ == before.objects@[owner.index() as int].dependencies@.push(
        h,
    )
    &&& after.shared == before.shared
    &&& after.env == before.env
}

/// Adds the dependency `name` of the object `owner`, whose file holds `file`, to the manifold.
///
/// Where the file is refused the manifold stays as it was. Else the file becomes the last
/// object of the manifold and `owner` depends on it. The list of the dependencies loaded is
/// not touched: see [`Loading`].
pub fn load_dependency(manifold: &mut Manifold, owner: Handle<Object>, name: &[u8], file: Mapping) -> (r: Result<
    Handle<Object>,
    SysvError,
>)
    requires
        old(manifold).wf(),
        old(manifold).objects.contains(owner),
    ensures
        final(manifold).wf(),
        grown(old(manifold), final(manifold)),
        match ingest_defect(file@) {
            Some(e) => r == Err::<Handle<Object>, SysvError>(SysvError::FoldError(e))
                && *final(manifold) == *old(manifold),
            None => r matches Ok(h) && dependency_loaded(
                old(manifold),
                final(manifold),
                owner,
                name@,
                file@,
                h,
            ),
        },
{
    let obj = match manifold.add_elf_file(file, to_vec(name)) {
        Err(e) => {
            return Err(SysvError::FoldError(e));
        },
        Ok(h) => h,
    };
    let ghost added = *manifold;
    assert(added.objects@.subrange(0, old(manifold).objects@.len() as int)[owner.index() as int]
        == old(manifold).objects@[owner.index() as int]);
    manifold.objects.index_mut(owner).dependencies.push(obj);
    proof {
        lemma_new_dependency_keeps_wf(added, *manifold, owner, obj);
    }
    Ok(obj)
}

// ———————————————————————————————— The walk ————————————————————————————————— //
/// Where a walk over the names to load stands.
#[derive(Debug, Clone, Copy, PartialEq, Eq, Structural)]
pub enum LoadStage {
    /// Before a name: the walk says where the name is looked for, or ends behind the last.
    Ask,
    /// The walk waits to be told at which of the paths a file was found.
    Probe,
    /// The walk waits for the content of the file that it chose.
    Open,
    /// The walk is over.
    End,
}

/// What happened outside since the last step of a walk.
pub enum LoadEvent {
    /// Nothing: the walk is to go on.
    Begin,
    /// The paths were looked at: for each, in order, whether a file is there.
    Probed(Vec<bool>),
    /// The file was opened: its content.
    Opened(Mapping),
}

/// What a walk asks for.
#[derive(Debug)]
pub enum LoadAction {
    /// Look which of these paths hold a file, and answer with [`LoadEvent::Probed`].
    Probe(Vec<Vec<u8>>),
    /// Open the file at this path, and answer with [`LoadEvent::Opened`].
    Open(Vec<u8>),
    /// The dependency was loaded: answer with [`LoadEvent::Begin`].
    Go,
    /// The walk is over, with this result.
    Done(Result<(), SysvError>),
}

/// A walk over the names of the dependencies to load for one object.
///
/// The names are taken in order. Each is looked for in the search paths of the manifold, in
/// order, and loaded from the first path at which a file is found. The first name for which
/// no file is found ends the walk with `DependencyNotFound`. The list of the dependencies
/// loaded, in the shared memory of the manifold, is written in one step behind the last
/// name: a walk that ends with an error leaves the list as it was.
#[derive(Debug)]
pub struct Loading {
    /// The object whose dependencies are loaded.
    pub owner: Handle<Object>,
    /// The names to load, in order.
    pub names: Vec<Vec<u8>>,
    /// How many of the names were loaded.
    pub next: usize,
    /// Where the walk stands.
    pub stage: LoadStage,
    /// The dependencies loaded so far, in order.
    pub added: Vec<SysvCollectorEntry>,
}

/// The position of the first path at which a file was found, among the first `limit` paths,
/// where `found` says of each path whether a file is there.
pub open spec fn first_found(found: Seq<bool>, limit: int) -> Option<int> {
    let i = crate::search::first_from(found, |b: bool| b, 0);
    if i < found.len() && i < limit {
        Some(i)
    } else {
        None
    }
}

/// Whether `end` is `start` with `added` behind the dependencies loaded that its shared memory
/// holds, and nothing else changed.
pub open spec fn published(start: &Manifold, end: &Manifold, added: Seq<SysvCollectorEntry>) -> bool {
    &&& spec_loaded(end) == spec_loaded(start) + added
    &&& end.objects == start.objects
    &&& end.sections == start.sections
    &&& end.segments == start.segments
    &&& end.env == start.env
    &&& forall|name: Seq<u8>|
        name != spec_result_key().name() ==> end.shared.lookup(name) == start.shared.lookup(name)
}

/// Whether `action` ends the walk `after` with an error.
pub open spec fn gave_up(after: Loading, action: LoadAction) -> bool {
    after.stage is End && action matches LoadAction::Done(Err(_))
}

/// What a walk before a name does: behind the last name it writes the list of the
/// dependencies loaded and ends; else it asks to look at the paths of the next name, one in
/// each search path of the manifold, or ends with an error where the manifold has no search
/// paths.
pub open spec fn asked(before: Loading, after: Loading, start: &Manifold, end: &Manifold, action: LoadAction) -> bool {
    let paths = start.shared.spec_get(spec_search_paths_key());
    &&& after.next == before.next
    &&& if before.next >= before.names@.len() {
        &&& action matches LoadAction::Done(Ok(_))
        &&& after.stage is End
        &&& after.added@.len() == 0
        &&& published(start, end, before.added@)
    } else if paths is None {
        &&& gave_up(after, action)
        &&& action matches LoadAction::Done(Err(SysvError::MissingSharedMapEntry(key)))
        &&& key == "sysv_collector_search_paths"
        &&& after.added == before.added
        &&& *end == *start
    } else {
        &&& action matches LoadAction::Probe(list)
        &&& list@.len() == paths->Some_0@.len()
        &&& forall|i: int|
            0 <= i < list@.len() ==> (#[trigger] list@[i])@ == spec_join(
                paths->Some_0@[i]@,
                before.names@[before.next as int]@,
            )
        &&& after.stage is Probe
        &&& after.added == before.added
        &&& *end == *start
    }
}

/// What a walk does when it is told what was found at the paths of its name: it asks for the
/// file at the first path at which one was found, or ends with `DependencyNotFound` and the
/// name where none was.
pub open spec fn probed(before: Loading, after: Loading, manifold: &Manifold, found: Seq<bool>, action: LoadAction) -> bool {
    let name = before.names@[before.next as int]@;
    let dirs = manifold.spec_search_paths();
    &&& after.next == before.next
    &&& after.added == before.added
    &&& match first_found(found, dirs.len() as int) {
        Some(i) => {
            &&& action matches LoadAction::Open(path)
            &&& path@ == spec_join(dirs[i]@, name)
            &&& after.stage is Open
        },
        None => {
            &&& gave_up(after, action)
            &&& action matches LoadAction::Done(Err(SysvError::DependencyNotFound(n)))
            &&& n@ == name
        },
    }
}

/// What a walk does with the content of the file that it asked for: it loads the file as
/// the dependency of its name and goes on to the next name, or ends with the reason for which
/// the file is refused.
pub open spec fn opened(
    before: Loading,
    after: Loading,
    start: &Manifold,
    end: &Manifold,
    raw: Seq<u8>,
    action: LoadAction,
) -> bool {
    let name = before.names@[before.next as int]@;
    match ingest_defect(raw) {
        Some(e) => {
            &&& gave_up(after, action)
            &&& action matches LoadAction::Done(Err(SysvError::FoldError(reason)))
            &&& reason == e
            &&& after.next == before.next
            &&& after.added == before.added
            &&& *end == *start
        },
        None => {
            &&& action is Go
            &&& after.stage is Ask
            &&& after.next == before.next + 1
            &&& after.added@.len() == before.added@.len() + 1
            &&& after.added@.subrange(0, before.added@.len() as int) == before.added@
            &&& after.added@.last().name@ == name
            &&& dependency_loaded(start, end, before.owner, name, raw, after.added@.last().obj)
        },
    }
}

impl Loading {
    /// Whether the walk stands at a name while it waits for an answer about it.
    pub open spec fn wf(&self) -> bool {
        &&& self.next <= self.names@.len()
        &&& (self.stage is Probe || self.stage is Open) ==> self.next < self.names@.len()
    }

    /// A walk over `names` for the object `owner`, before the first name.
    pub fn start(owner: Handle<Object>, names: Vec<Vec<u8>>) -> (walk: Self)
        ensures
            walk.wf(),
            walk.owner == owner,
            walk.names == names,
            walk.next == 0,
            walk.stage is Ask,
            walk.added@.len() == 0,
    {
        Loading { owner, names, next: 0, stage: LoadStage::Ask, added: Vec::new() }
    }

    /// Ends the walk with the error `e`.
    fn give_up(&mut self, e: SysvError) -> (action: LoadAction)
        ensures
            gave_up(*final(self), action),
            action == LoadAction::Done(Err(e)),
            final(self).owner == old(self).owner,
            final(self).names == old(self).names,
            final(self).next == old(self).next,
            final(self).added == old(self).added,
    {
        self.stage = LoadStage::End;
        LoadAction::Done(Err(e))
    }

    /// Writes the dependencies loaded behind those that the shared memory of the manifold
    /// holds.
    fn publish(&mut self, manifold: &mut Manifold)
        requires
            old(manifold).wf(),
        ensures
            final(manifold).wf(),
            published(old(manifold), final(manifold), old(self).added@),
            final(self).added@.len() == 0,
            final(self).owner == old(self).owner,
            final(self).names == old(self).names,
            final(self).next == old(self).next,
            final(self).stage == old(self).stage,
    {
        match manifold.shared.get_mut(result_key()) {
            Some(list) => {
                list.append(&mut self.added);
                proof {
                    Vec::<SysvCollectorEntry>::lemma_wrap_unwrap(*final(list), (*final(list)).wrap());
                }
            },
            None => {
                let mut list: Vec<SysvCollectorEntry> = Vec::new();
                list.append(&mut self.added);
                assert(list@ =~= Seq::<SysvCollectorEntry>::empty() + old(self).added@);
                manifold.shared.insert(result_key(), list);
            },
        }
        proof {
            crate::manifold::lemma_wf_ignores_shared(*old(manifold), *manifold);
        }
    }

    /// One step of the walk: takes what happened outside and says what to do next.
    ///
    /// - Before a name, on [`LoadEvent::Begin`]: see [`asked`].
    /// - Waiting for what was found, on [`LoadEvent::Probed`]: see [`probed`].
    /// - Waiting for a file, on [`LoadEvent::Opened`]: see [`opened`].
    /// - On any other event, and when the walk is over, the walk ends with an error and
    ///   nothing changes.
    ///
    /// The walk succeeds only behind the last name, and only that step writes to the shared
    /// memory of the manifold.
    pub fn advance(&mut self, event: LoadEvent, manifold: &mut Manifold) -> (action: LoadAction)
        requires
            old(self).wf(),
            old(manifold).wf(),
            old(manifold).objects.contains(old(self).owner),
        ensures
            final(self).wf(),
            final(manifold).wf(),
            grown(old(manifold), final(manifold)),
            final(self).owner == old(self).owner,
            final(self).names == old(self).names,
            action matches LoadAction::Done(Ok(_)) ==> old(self).next == old(self).names@.len(),
            !(action matches LoadAction::Done(Ok(_))) ==> final(manifold).shared == old(
                manifold,
            ).shared,
            match (old(self).stage, event) {
                (LoadStage::Ask, LoadEvent::Begin) => asked(
                    *old(self),
                    *final(self),
                    old(manifold),
                    final(manifold),
                    action,
                ),
                (LoadStage::Probe, LoadEvent::Probed(found)) => probed(
                    *old(self),
                    *final(self),
                    old(manifold),
                    found@,
                    action,
                ) && *final(manifold) == *old(manifold),
                (LoadStage::Open, LoadEvent::Opened(file)) => opened(
                    *old(self),
                    *final(self),
                    old(manifold),
                    final(manifold),
                    file@,
                    action,
                ),
                _ => {
                    &&& gave_up(*final(self), action)
                    &&& action matches LoadAction::Done(Err(SysvError::Other))
                    &&& final(self).next == old(self).next
                    &&& final(self).added == old(self).added
                    &&& *final(manifold) == *old(manifold)
                },
            },
    {
        match (self.stage, event) {
            (LoadStage::Ask, LoadEvent::Begin) => {
                if self.next >= self.names.len() {
                    self.publish(manifold);
                    self.stage = LoadStage::End;
                    return LoadAction::Done(Ok(()));
                }
                match search(manifold, self.names[self.next].as_slice()) {
                    Err(e) => self.give_up(e),
                    Ok(paths) => {
                        self.stage = LoadStage::Probe;
                        LoadAction::Probe(paths)
                    },
                }
            },
            (LoadStage::Probe, LoadEvent::Probed(found)) => {
                let name = self.names[self.next].as_slice();
                let paths = match search(manifold, name) {
                    Err(_) => Vec::new(),
                    Ok(paths) => paths,
                };
                proof {
                    crate::search::lemma_first_from(found@, |b: bool| b, 0);
                }
                match pick(found.as_slice(), name) {
                    Ok(i) => {
                        if i < paths.len() {
                            let mut paths = paths;
                            let path = paths.swap_remove(i);
                            self.stage = LoadStage::Open;
                            return LoadAction::Open(path);
                        }
                        let e = SysvError::DependencyNotFound(to_vec(name));
                        self.give_up(e)
                    },
                    Err(e) => self.give_up(e),
                }
            },
            (LoadStage::Open, LoadEvent::Opened(file)) => {
                let name = to_vec(self.names[self.next].as_slice());
                match load_dependency(manifold, self.owner, name.as_slice(), file) {
                    Err(e) => self.give_up(e),
                    Ok(obj) => {
                        let ghost before = self.added@;
                        self.added.push(SysvCollectorEntry { name, obj });
                        assert(self.added@.subrange(0, before.len() as int) =~= before);
                        let count = self.names.len();
                        assert(self.next < count);
                        self.next = self.next + 1;
                        self.stage = LoadStage::Ask;
                        LoadAction::Go
                    },
                }
            },
            _ => self.give_up(SysvError::Other),
        }
    }
}

/// A new dependency on an object of the manifold keeps the manifold well-formed.
pub proof fn lemma_new_dependency_keeps_wf(before: Manifold, after: Manifold, owner: Handle<Object>, dep: Handle<Object>)
    requires
        before.wf(),
        before.objects.contains(owner),
        before.objects.contains(dep),
        after.sections == before.sections,
        after.segments == before.segments,
        after.objects@.len() == before.objects@.len(),
        forall|k: int|
            0 <= k < before.objects@.len() && k != owner.index() ==> #[trigger] after.objects@[k]
                == before.objects@[k],
        crate::sysv::loader::same_object_but_shared(
            Object { dependencies: after.objects@[owner.index() as int].dependencies, ..before.objects@[owner.index() as int] },
            after.objects@[owner.index() as int],
        ),
        after.objects@[owner.index() as int].dependencies@ == before.objects@[owner.index() as int].dependencies@.push(
            dep,
        ),
    ensures
        after.wf(),
{
    assert forall|k: int| 0 <= k < after.sections@.len() implies #[trigger] after.section_owned(
        k,
    ) by {
        assert(before.section_owned(k));
    }
    assert forall|k: int| 0 <= k < after.segments@.len() implies #[trigger] after.segment_owned(
        k,
    ) by {
        assert(before.segment_owned(k));
    }
    assert forall|k: int| 0 <= k < after.objects@.len() implies #[trigger] after.object_consistent(
        k,
    ) by {
        assert(before.object_consistent(k));
        if k == owner.index() {
            let a = before.objects@[k];
            let b = after.objects@[k];
            assert forall|j: int| 0 <= j < b.dependencies@.len() implies after.objects.contains(
                #[trigger] b.dependencies@[j],
            ) by {
                if j < a.dependencies@.len() {
                    assert(before.objects.contains(a.dependencies@[j]));
                }
            }
        }
    }
}

} // verus!
