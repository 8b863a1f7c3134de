//! Loads the segments of an object into memory.
//!
//! The loader decides where a segment goes and what it holds; mapping memory is left to the
//! caller. For each `PT_LOAD` segment the caller asks [`SysvLoader::plan`] what to map, maps it,
//! and reports the address to [`SysvLoader::process_segment`], which records the object's base and
//! the segment's loaded image.

use crate::arena::Handle;
use crate::elf::PT_LOAD;
use crate::file::MappingMut;
use crate::manifold::Manifold;
use crate::object::{Object, Segment};
use crate::share_map::ShareMapKey;
use vstd::prelude::*;
use vstd::slice::slice_subrange;

verus! {

/// Size of a page of memory.
pub const PAGE_SIZE: usize = 0x1000;

/// The key under which an object's shared memory holds the object's base address.
pub open spec fn spec_base_addr_key() -> ShareMapKey<usize> {
    ShareMapKey::named("sys_loader")
}

/// The key under which an object's shared memory holds the object's base address.
pub fn base_addr_key() -> (k: ShareMapKey<usize>)
    ensures
        k == spec_base_addr_key(),
{
    ShareMapKey::new("sys_loader")
}

/// The base address of `obj`, once the loader gave it one.
pub open spec fn spec_base_of(obj: &Object) -> Option<usize> {
    obj.shared.spec_get(spec_base_addr_key())
}

/// The base address of `obj`, once the loader gave it one.
pub fn base_of(obj: &Object) -> (b: Option<usize>)
    ensures
        b == spec_base_of(obj),
{
    match obj.shared.get(base_addr_key()) {
        Some(b) => Some(*b),
        None => None,
    }
}

/// `a + b` in the arithmetic of addresses, which wraps around at the largest machine word.
pub open spec fn wrapping_sum(a: int, b: int) -> usize {
    ((a + b) % (usize::MAX + 1)) as usize
}

/// The remainder of `x` by `m` for an `x` from `-m` up to `2 * m`.
pub proof fn lemma_mod_near(x: int, m: int)
    requires
        m > 0,
        -m <= x < 2 * m,
    ensures
        0 <= x < m ==> x % m == x,
        m <= x ==> x % m == x - m,
        x < 0 ==> x % m == x + m,
{
    if x < 0 {
        vstd::arithmetic::div_mod::lemma_fundamental_div_mod_converse(x, m, -1, x + m);
    } else if x < m {
        vstd::arithmetic::div_mod::lemma_fundamental_div_mod_converse(x, m, 0, x);
    } else {
        vstd::arithmetic::div_mod::lemma_fundamental_div_mod_converse(x, m, 1, x - m);
    }
}

/// `a + b` in the arithmetic of addresses.
pub fn address_sum(a: usize, b: usize) -> (r: usize)
    ensures
        r == wrapping_sum(a as int, b as int),
{
    proof {
        lemma_mod_near(a + b, usize::MAX + 1);
    }
    if a > usize::MAX - b {
        a - (usize::MAX - b) - 1
    } else {
        a + b
    }
}

/// The page that holds `addr`: `addr` without its low twelve bits.
pub open spec fn page_of(addr: usize) -> usize {
    (addr - addr % 0x1000) as usize
}

/// Splits an address into the address of its page and the offset into the page.
pub fn split_page(addr: usize) -> (r: (usize, usize))
    ensures
        r.0 == page_of(addr),
        r.1 == addr % 0x1000,
        r.0 + r.1 == addr,
{
    let off = addr % PAGE_SIZE;
    (addr - off, off)
}

/// What the caller must map before a segment can be loaded.
#[derive(Debug, Clone, Copy, PartialEq, Eq, Structural)]
pub enum LoadPlan {
    /// Nothing: the segment takes no memory.
    Skip,
    /// The object has no base yet. Reserve `length` bytes at an address that the operating
    /// system chooses: anonymous, private, readable, writable and executable. The address
    /// becomes the object's base, and the segment lies inside the region.
    Reserve { length: usize },
    /// The object has a base. Map `length` bytes at exactly `addr`, which is page-aligned:
    /// anonymous, private, fixed, readable, writable and executable.
    MapFixed { addr: usize, length: usize },
}

/// The end of the memory that the `PT_LOAD` segments of `segments` from number `from` on need
/// above the object's base: the largest `vaddr + mem_size` among them, and at least `floor`.
/// Sums that exceed the largest machine word count as that word.
pub open spec fn extent_from(manifold: &Manifold, segments: Seq<Handle<Segment>>, from: int, floor: nat) -> nat
    decreases segments.len() - from,
{
    if from < 0 || from >= segments.len() {
        floor
    } else {
        let s = manifold.segments@[segments[from].index() as int];
        let end: nat = if s.vaddr + s.mem_size <= usize::MAX {
            (s.vaddr + s.mem_size) as nat
        } else {
            usize::MAX as nat
        };
        extent_from(
            manifold,
            segments,
            from + 1,
            if s.tag == PT_LOAD && end > floor {
                end
            } else {
                floor
            },
        )
    }
}

/// The memory that the `PT_LOAD` segments of `obj` need above the object's base.
pub open spec fn spec_extent(manifold: &Manifold, obj: &Object) -> nat {
    extent_from(manifold, obj.segments@, 0, 0)
}

/// The image of a segment in memory: the first bytes of its content in the file, as many as
/// `mem_size` allows, and zeros up to `mem_size`.
pub open spec fn spec_image(segment: &Segment) -> Seq<u8> {
    let kept = if segment.mapping@.len() <= segment.mem_size {
        segment.mapping@.len() as int
    } else {
        segment.mem_size as int
    };
    segment.mapping@.subrange(0, kept) + Seq::new((segment.mem_size - kept) as nat, |i: int| 0u8)
}

/// What `plan` answers for the segment `s` of an object of base `base`.
pub open spec fn spec_plan(manifold: &Manifold, s: &Segment, base: Option<usize>) -> LoadPlan {
    if s.mem_size == 0 {
        LoadPlan::Skip
    } else {
        match base {
            None => LoadPlan::Reserve {
                length: spec_extent(
                    manifold,
                    &manifold.objects@[s.obj.index() as int],
                ) as usize,
            },
            Some(b) => {
                let target = wrapping_sum(b as int, s.vaddr as int);
                LoadPlan::MapFixed {
                    addr: page_of(target),
                    length: if s.mem_size + target % 0x1000 <= usize::MAX {
                        (s.mem_size + target % 0x1000) as usize
                    } else {
                        usize::MAX
                    },
                }
            },
        }
    }
}

/// Loader of the segments of System V objects.
#[derive(Debug)]
pub struct SysvLoader {}

impl SysvLoader {
    pub fn new() -> Self {
        Self {  }
    }

    /// Name of the module.
    pub fn name(&self) -> (n: &'static str)
        ensures
            n == "sysv-loader",
    {
        "sysv-loader"
    }

    /// The memory that the `PT_LOAD` segments of the object `obj` need above its base.
    pub fn extent(manifold: &Manifold, obj: Handle<Object>) -> (e: usize)
        requires
            manifold.wf(),
            manifold.objects.contains(obj),
        ensures
            e == spec_extent(manifold, &manifold.objects@[obj.index() as int]),
    {
        let object = manifold.objects.index(obj);
        assert(manifold.object_consistent(obj.index() as int));
        let mut max: usize = 0;
        let mut k: usize = 0;
        while k < object.segments.len()
            invariant
                k <= object.segments@.len(),
                manifold.objects.contains(obj),
                manifold.object_consistent(obj.index() as int),
                *object == manifold.objects@[obj.index() as int],
                spec_extent(manifold, object) == extent_from(
                    manifold,
                    object.segments@,
                    k as int,
                    max as nat,
                ),
            decreases object.segments@.len() - k,
        {
            let h = object.segments[k];
            assert(manifold.segments.contains(h));
            let s = manifold.segments.index(h);
            if s.tag == PT_LOAD {
                let end = crate::elf::saturating_sum(s.vaddr, s.mem_size);
                if end > max {
                    max = end;
                }
            }
            k = k + 1;
        }
        max
    }

    /// What must be mapped before the segment `segment` can be loaded.
    pub fn plan(&self, segment: Handle<Segment>, manifold: &Manifold) -> (p: LoadPlan)
        requires
            manifold.wf(),
            manifold.segments.contains(segment),
        ensures
            p == spec_plan(
                manifold,
                &manifold.segments@[segment.index() as int],
                spec_base_of(
                    &manifold.objects@[manifold.segments@[segment.index() as int].obj.index() as int],
                ),
            ),
    {
        let s = manifold.segments.index(segment);
        assert(manifold.segment_owned(segment.index() as int));
        let obj = manifold.objects.index(s.obj);
        if s.mem_size == 0 {
            return LoadPlan::Skip;
        }
        match base_of(obj) {
            None => LoadPlan::Reserve { length: Self::extent(manifold, s.obj) },
            Some(base) => {
                let target = address_sum(base, s.vaddr);
                let (page, offset) = split_page(target);
                LoadPlan::MapFixed {
                    addr: page,
                    length: crate::elf::saturating_sum(s.mem_size, offset),
                }
            },
        }
    }

    /// The image of `segment` in memory.
    pub fn image(segment: &Segment) -> (bytes: Vec<u8>)
        ensures
            bytes@ == spec_image(segment),
            bytes@.len() == segment.mem_size,
    {
        let file = segment.mapping.bytes();
        let kept = if file.len() <= segment.mem_size {
            file.len()
        } else {
            segment.mem_size
        };
        let mut bytes = crate::bytes::to_vec(slice_subrange(file, 0, kept));
        let ghost head = bytes@;
        let mut n: usize = kept;
        while n < segment.mem_size
            invariant
                kept <= n <= segment.mem_size,
                head.len() == kept,
                bytes@ == head + Seq::new((n - kept) as nat, |i: int| 0u8),
            decreases segment.mem_size - n,
        {
            bytes.push(0);
            assert(bytes@ =~= head + Seq::new((n + 1 - kept) as nat, |i: int| 0u8));
            n = n + 1;
        }
        bytes
    }

    /// Loads the segment `segment`, once the memory that [`SysvLoader::plan`] asked for it
    /// was mapped at `mapped`.
    ///
    /// Where the object had no base, `mapped` becomes its base; a base, once set, stays. The
    /// segment's loaded image is then recorded: it lies at base plus `vaddr` and holds
    /// `mem_size` bytes, the segment's content in the file followed by zeros. A segment that
    /// takes no memory is left as it is. Nothing else changes in the manifold.
    pub fn process_segment(&mut self, segment: Handle<Segment>, manifold: &mut Manifold, mapped: usize)
        requires
            old(manifold).wf(),
            old(manifold).segments.contains(segment),
        ensures
            final(manifold).wf(),
            loaded(old(manifold), final(manifold), segment, mapped),
            old(manifold).segments@[segment.index() as int].mem_size > 0 ==> covered(
                final(manifold),
                segment,
            ),
    {
        assert(manifold.segment_owned(segment.index() as int));
        let s = manifold.segments.index(segment);
        if s.mem_size == 0 {
            return ;
        }
        let hobj = s.obj;
        let vaddr = s.vaddr;
        let image = Self::image(s);
        let ghost before = *manifold;
        let obj = manifold.objects.index_mut(hobj);
        let base = match base_of(obj) {
            Some(b) => b,
            None => {
                obj.shared.insert(base_addr_key(), mapped);
                mapped
            },
        };
        let target = address_sum(base, vaddr);
        let s = manifold.segments.index_mut(segment);
        s.loaded_mapping = Some(MappingMut::new(target, image));
        proof {
            lemma_loaded_keeps_wf(before, *manifold, segment);
        }
    }
}

/// Whether `after` is `before` with the segment `segment` loaded, once the memory planned for
/// it was mapped at `mapped`.
pub open spec fn loaded(before: &Manifold, after: &Manifold, segment: Handle<Segment>, mapped: usize) -> bool {
    let s = before.segments@[segment.index() as int];
    let o = s.obj.index() as int;
    if s.mem_size == 0 {
        *after == *before
    } else {
        let base = match spec_base_of(&before.objects@[o]) {
            Some(b) => b,
            None => mapped,
        };
        &&& same_but_loading(before, after, segment)
        &&& spec_base_of(&after.objects@[o]) == Some(base)
        &&& after.segments@[segment.index() as int].loaded_mapping matches Some(m)
        &&& m.spec_addr() == wrapping_sum(base as int, s.vaddr as int)
        &&& m@ == spec_image(&s)
        &&& m@.len() == s.mem_size
    }
}

/// Whether `after` differs from `before` in nothing but the shared memory of the object that
/// owns `segment` and the loaded image of `segment`.
pub open spec fn same_but_loading(before: &Manifold, after: &Manifold, segment: Handle<Segment>) -> bool {
    let i = segment.index() as int;
    let o = before.segments@[i].obj.index() as int;
    &&& after.sections == before.sections
    &&& after.shared == before.shared
    &&& after.env == before.env
    &&& after.objects@.len() == before.objects@.len()
    &&& after.segments@.len() == before.segments@.len()
    &&& forall|k: int|
        0 <= k < before.objects@.len() && k != o ==> #[trigger] after.objects@[k]
            == before.objects@[k]
    &&& forall|k: int|
        0 <= k < before.segments@.len() && k != i ==> #[trigger] after.segments@[k]
            == before.segments@[k]
    &&& same_object_but_shared(before.objects@[o], after.objects@[o])
    &&& same_segment_but_loaded(before.segments@[i], after.segments@[i])
}

/// Whether two objects differ in nothing but their shared memory.
pub open spec fn same_object_but_shared(a: Object, b: Object) -> bool {
    &&& b.path == a.path
    &&& b.mapping == a.mapping
    &&& b.sections == a.sections
    &&& b.segments == a.segments
    &&& b.dependencies == a.dependencies
    &&& b.os_abi == a.os_abi
    &&& b.elf_type == a.elf_type
    &&& b.e_machine == a.e_machine
    &&& b.e_shoff == a.e_shoff
    &&& b.e_shentsize == a.e_shentsize
    &&& b.e_shnum == a.e_shnum
    &&& b.e_phoff == a.e_phoff
    &&& b.e_phentsize == a.e_phentsize
    &&& b.e_phnum == a.e_phnum
    &&& b.e_shstrndx == a.e_shstrndx
}

/// Whether two segments differ in nothing but their loaded image.
pub open spec fn same_segment_but_loaded(a: Segment, b: Segment) -> bool {
    &&& b.mapping == a.mapping
    &&& b.obj == a.obj
    &&& b.tag == a.tag
    &&& b.flags == a.flags
    &&& b.offset == a.offset
    &&& b.vaddr == a.vaddr
    &&& b.paddr == a.paddr
    &&& b.file_size == a.file_size
    &&& b.mem_size == a.mem_size
    &&& b.align == a.align
    &&& b.shared == a.shared
}

/// Loading a segment keeps the manifold well-formed.
pub proof fn lemma_loaded_keeps_wf(before: Manifold, after: Manifold, segment: Handle<Segment>)
    requires
        before.wf(),
        before.segments.contains(segment),
        same_but_loading(&before, &after, segment),
    ensures
        after.wf(),
{
    let i = segment.index() as int;
    assert(before.segment_owned(i));
    let o = before.segments@[i].obj.index() as int;
    assert forall|k: int| 0 <= k < after.sections@.len() implies #[trigger] after.section_owned(
        k,
    ) by {
        assert(before.section_owned(k));
    }
    assert forall|k: int| 0 <= k < after.segments@.len() implies #[trigger] after.segment_owned(
        k,
    ) by {
        assert(before.segment_owned(k));
    }
    assert forall|k: int| 0 <= k < after.objects@.len() implies #[trigger] after.object_consistent(
        k,
    ) by {
        assert(before.object_consistent(k));
        let a = before.objects@[k];
        let b = after.objects@[k];
        assert(b.sections == a.sections && b.segments == a.segments && b.dependencies
            == a.dependencies && b.mapping == a.mapping);
        assert forall|j: int| 0 <= j < b.segments@.len() implies {
            let h = #[trigger] b.segments@[j];
            &&& after.segments.contains(h)
            &&& after.segments@[h.index() as int].obj.index() == k
        } by {
            let h = a.segments@[j];
            assert(before.segments.contains(h));
        }
    }
}

/// Whether the segment `segment` is loaded as its object asks: the object has a base, and the
/// segment has a loaded image of at least `mem_size` bytes that starts at the base plus the
/// segment's `vaddr`.
pub open spec fn covered(manifold: &Manifold, segment: Handle<Segment>) -> bool {
    let s = manifold.segments@[segment.index() as int];
    let base = spec_base_of(&manifold.objects@[s.obj.index() as int]);
    &&& base.is_some()
    &&& s.loaded_mapping matches Some(m)
    &&& m@.len() >= s.mem_size
    &&& m.spec_addr() == wrapping_sum(base.unwrap() as int, s.vaddr as int)
}

/// After a segment that takes memory was loaded, it has a loaded image of at least `mem_size`
/// bytes that starts at the base of its object plus its `vaddr`.
pub proof fn lemma_loaded_segment_is_covered(
    before: Manifold,
    after: Manifold,
    segment: Handle<Segment>,
    mapped: usize,
)
    requires
        before.wf(),
        before.segments.contains(segment),
        before.segments@[segment.index() as int].mem_size > 0,
        loaded(&before, &after, segment, mapped),
    ensures
        covered(&after, segment),
{
}

/// Loading a segment leaves every segment that was loaded as its object asks loaded so: the
/// base of an object, once set, stays, and no other segment is touched. So after the loader
/// went through the segments of an object, all of them that take memory are loaded as the
/// object asks.
pub proof fn lemma_loading_keeps_segments_covered(
    before: Manifold,
    after: Manifold,
    segment: Handle<Segment>,
    mapped: usize,
    other: Handle<Segment>,
)
    requires
        before.wf(),
        before.segments.contains(segment),
        before.segments.contains(other),
        loaded(&before, &after, segment, mapped),
        covered(&before, other),
    ensures
        covered(&after, other),
{
    let i = segment.index() as int;
    let j = other.index() as int;
    assert(before.segment_owned(i));
    assert(before.segment_owned(j));
    let s = before.segments@[i];
    if s.mem_size != 0 {
        let o = s.obj.index() as int;
        let p = before.segments@[j].obj.index() as int;
        if j != i {
            assert(after.segments@[j] == before.segments@[j]);
            if p != o {
                assert(after.objects@[p] == before.objects@[p]);
            }
        }
    }
}

} // verus!
