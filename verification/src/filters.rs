//! Filters: which items of the manifold a module is applied to.

use crate::object::{Object, Section, Segment};
use vstd::prelude::*;

verus! {

/// A mask to filter matching objects.
#[derive(Clone, Copy, Debug, PartialEq, Eq, Structural)]
pub enum ObjectMask {
    /// Accept only objects matching exactly the OS ABI and elf type.
    Strict,
    /// Accept any object matching the elf type.
    ElfType,
    /// Accept any object matching the OS abi.
    OsAbi,
    /// Accept any object.
    Any,
}

/// A condition on objects.
#[derive(Clone, Copy, Debug, PartialEq, Eq, Structural)]
pub struct ObjectFilter {
    /// A mask to ignore filters on OS ABIs or elf types.
    pub mask: ObjectMask,
    /// OS ABI
    pub os_abi: u8,
    /// Elf type
    pub elf_type: u16,
}

/// A condition on segments: their type.
#[derive(Clone, Copy, Debug, PartialEq, Eq, Structural)]
pub struct SegmentID {
    /// Segment type, correspond to p_type.
    pub tag: u32,
}

/// A condition on sections: their type.
#[derive(Clone, Copy, Debug, PartialEq, Eq, Structural)]
pub struct SectionID {
    /// Section type, correspond to sh_type.
    pub tag: u32,
}

/// The condition on segments that only segments of type `segment_type` meet.
pub fn segment(segment_type: u32) -> (id: SegmentID)
    ensures
        id.tag == segment_type,
{
    SegmentID { tag: segment_type }
}

/// The condition on sections that only sections of type `section_type` meet.
pub fn section(section_type: u32) -> (id: SectionID)
    ensures
        id.tag == section_type,
{
    SectionID { tag: section_type }
}

impl ObjectFilter {
    /// The condition that every object meets.
    pub fn any() -> (f: Self)
        ensures
            f == (ObjectFilter { mask: ObjectMask::Any, os_abi: 0, elf_type: 0 }),
            forall|obj: Object| f.accepts(&obj),
    {
        Self { mask: ObjectMask::Any, os_abi: 0, elf_type: 0 }
    }

    /// Whether `obj` meets the condition.
    pub open spec fn accepts(self, obj: &Object) -> bool {
        match self.mask {
            ObjectMask::Strict => self.elf_type == obj.elf_type && self.os_abi == obj.os_abi,
            ObjectMask::ElfType => self.elf_type == obj.elf_type,
            ObjectMask::OsAbi => self.os_abi == obj.os_abi,
            ObjectMask::Any => true,
        }
    }

    /// Whether `obj` meets the condition.
    pub fn matches(&self, obj: &Object) -> (b: bool)
        ensures
            b == self.accepts(obj),
    {
        match self.mask {
            ObjectMask::Strict => self.elf_type == obj.elf_type && self.os_abi == obj.os_abi,
            ObjectMask::ElfType => self.elf_type == obj.elf_type,
            ObjectMask::OsAbi => self.os_abi == obj.os_abi,
            ObjectMask::Any => true,
        }
    }
}

/// One alternative of a [`Filter`].
#[derive(Clone, Copy, Debug, PartialEq, Eq, Structural)]
pub enum ItemFilter {
    /// The manifold as a whole.
    Manifold,
    /// The objects that meet the condition.
    Object(ObjectFilter),
    /// The segments of the given type, or all segments, of the objects that meet the
    /// condition.
    Segment(Option<SegmentID>, ObjectFilter),
    /// The sections of the given type, or all sections, of the objects that meet the
    /// condition.
    Section(Option<SectionID>, ObjectFilter),
}

impl ItemFilter {
    /// The condition on objects of this alternative, where it has one.
    pub fn object_filter(self) -> (f: Option<ObjectFilter>)
        ensures
            f == match self {
                ItemFilter::Manifold => None,
                ItemFilter::Object(f) => Some(f),
                ItemFilter::Segment(_, f) => Some(f),
                ItemFilter::Section(_, f) => Some(f),
            },
    {
        match self {
            ItemFilter::Manifold => None,
            ItemFilter::Object(f) => Some(f),
            ItemFilter::Segment(_, f) => Some(f),
            ItemFilter::Section(_, f) => Some(f),
        }
    }

    /// Whether this alternative selects the object `obj`.
    pub open spec fn selects_object(self, obj: &Object) -> bool {
        self matches ItemFilter::Object(f) && f.accepts(obj)
    }

    /// Whether this alternative selects the segment `segment` of the object `obj`.
    pub open spec fn selects_segment(self, segment: &Segment, obj: &Object) -> bool {
        self matches ItemFilter::Segment(id, f) && f.accepts(obj) && (id matches Some(id)
            ==> id.tag == segment.tag)
    }

    /// Whether this alternative selects the section `section` of the object `obj`.
    pub open spec fn selects_section(self, section: &Section, obj: &Object) -> bool {
        self matches ItemFilter::Section(id, f) && f.accepts(obj) && (id matches Some(id)
            ==> id.tag == section.tag)
    }
}

/// Element filter for applying modules: a list of alternatives, of which one must select an
/// item for the filter to match it.
///
/// A basic filter matches either the whole manifold, or objects, segments or sections under a
/// condition. Filters are combined with [`Filter::or`] to extend a module's reach.
#[derive(Debug)]
pub struct Filter {
    pub items: Vec<ItemFilter>,
}

impl Filter {
    /// Whether the filter matches the manifold as a whole.
    pub open spec fn spec_matches_manifold(&self) -> bool {
        exists|i: int| 0 <= i < self.items@.len() && #[trigger] self.items@[i] is Manifold
    }

    /// Whether the filter matches the object `obj`.
    pub open spec fn spec_matches_object(&self, obj: &Object) -> bool {
        exists|i: int| 0 <= i < self.items@.len() && (#[trigger] self.items@[i]).selects_object(obj)
    }

    /// Whether the filter has an alternative about segments.
    pub open spec fn spec_is_segment_filter(&self) -> bool {
        exists|i: int| 0 <= i < self.items@.len() && #[trigger] self.items@[i] is Segment
    }

    /// Whether the filter matches the segment `segment` of the object `obj`.
    pub open spec fn spec_matches_segment(&self, segment: &Segment, obj: &Object) -> bool {
        exists|i: int|
            0 <= i < self.items@.len() && (#[trigger] self.items@[i]).selects_segment(
                segment,
                obj,
            )
    }

    /// Whether the filter has an alternative about sections.
    pub open spec fn spec_is_section_filter(&self) -> bool {
        exists|i: int| 0 <= i < self.items@.len() && #[trigger] self.items@[i] is Section
    }

    /// Whether the filter matches the section `section` of the object `obj`.
    pub open spec fn spec_matches_section(&self, section: &Section, obj: &Object) -> bool {
        exists|i: int|
            0 <= i < self.items@.len() && (#[trigger] self.items@[i]).selects_section(
                section,
                obj,
            )
    }

    /// Whether the filter matches the manifold as a whole.
    pub fn matches_manifold(&self) -> (b: bool)
        ensures
            b == self.spec_matches_manifold(),
    {
        let mut i: usize = 0;
        while i < self.items.len()
            invariant
                i <= self.items@.len(),
                forall|j: int| 0 <= j < i ==> !(#[trigger] self.items@[j] is Manifold),
            decreases self.items@.len() - i,
        {
            match self.items[i] {
                ItemFilter::Manifold => {
                    return true;
                },
                _ => {},
            }
            i = i + 1;
        }
        false
    }

    /// Whether the filter matches the object `object`.
    pub fn matches_object(&self, object: &Object) -> (b: bool)
        ensures
            b == self.spec_matches_object(object),
    {
        let mut i: usize = 0;
        while i < self.items.len()
            invariant
                i <= self.items@.len(),
                forall|j: int| 0 <= j < i ==> !(#[trigger] self.items@[j]).selects_object(object),
            decreases self.items@.len() - i,
        {
            match self.items[i] {
                ItemFilter::Object(f) => {
                    if f.matches(object) {
                        return true;
                    }
                },
                _ => {},
            }
            i = i + 1;
        }
        false
    }

    /// Whether the filter has an alternative about segments, so that the segments of an object
    /// must be walked.
    pub fn is_segment_filter(&self) -> (b: bool)
        ensures
            b == self.spec_is_segment_filter(),
    {
        let mut i: usize = 0;
        while i < self.items.len()
            invariant
                i <= self.items@.len(),
                forall|j: int| 0 <= j < i ==> !(#[trigger] self.items@[j] is Segment),
            decreases self.items@.len() - i,
        {
            match self.items[i] {
                ItemFilter::Segment(_, _) => {
                    return true;
                },
                _ => {},
            }
            i = i + 1;
        }
        false
    }

    /// Whether the filter matches the segment `segment` of the object `object`.
    pub fn matches_segment(&self, segment: &Segment, object: &Object) -> (b: bool)
        ensures
            b == self.spec_matches_segment(segment, object),
    {
        let mut i: usize = 0;
        while i < self.items.len()
            invariant
                i <= self.items@.len(),
                forall|j: int|
                    0 <= j < i ==> !(#[trigger] self.items@[j]).selects_segment(segment, object),
            decreases self.items@.len() - i,
        {
            match self.items[i] {
                ItemFilter::Segment(id, f) => {
                    let tag_ok = match id {
                        Some(id) => id.tag == segment.tag,
                        None => true,
                    };
                    if tag_ok && f.matches(object) {
                        return true;
                    }
                },
                _ => {},
            }
            i = i + 1;
        }
        false
    }

    /// Whether the filter has an alternative about sections, so that the sections of an object
    /// must be walked.
    pub fn is_section_filter(&self) -> (b: bool)
        ensures
            b == self.spec_is_section_filter(),
    {
        let mut i: usize = 0;
        while i < self.items.len()
            invariant
                i <= self.items@.len(),
                forall|j: int| 0 <= j < i ==> !(#[trigger] self.items@[j] is Section),
            decreases self.items@.len() - i,
        {
            match self.items[i] {
                ItemFilter::Section(_, _) => {
                    return true;
                },
                _ => {},
            }
            i = i + 1;
        }
        false
    }

    /// Whether the filter matches the section `section` of the object `object`.
    pub fn matches_section(&self, section: &Section, object: &Object) -> (b: bool)
        ensures
            b == self.spec_matches_section(section, object),
    {
        let mut i: usize = 0;
        while i < self.items.len()
            invariant
                i <= self.items@.len(),
                forall|j: int|
                    0 <= j < i ==> !(#[trigger] self.items@[j]).selects_section(section, object),
            decreases self.items@.len() - i,
        {
            match self.items[i] {
                ItemFilter::Section(id, f) => {
                    let tag_ok = match id {
                        Some(id) => id.tag == section.tag,
                        None => true,
                    };
                    if tag_ok && f.matches(object) {
                        return true;
                    }
                },
                _ => {},
            }
            i = i + 1;
        }
        false
    }

    /// The filter of the one alternative `item`.
    pub fn of(item: ItemFilter) -> (f: Self)
        ensures
            f.items@ == seq![item],
    {
        let mut items: Vec<ItemFilter> = Vec::new();
        items.push(item);
        Filter { items }
    }

    /// Creates a filter matching the manifold.
    pub fn manifold() -> (f: Self)
        ensures
            f.items@ == seq![ItemFilter::Manifold],
    {
        Self::of(ItemFilter::Manifold)
    }

    /// Creates a filter matching the objects that meet `pred`.
    pub fn object(pred: ObjectFilter) -> (f: Self)
        ensures
            f.items@ == seq![ItemFilter::Object(pred)],
    {
        Self::of(ItemFilter::Object(pred))
    }

    /// Creates a filter matching the segments that `pred` describes: those of a type, or all,
    /// in the objects that meet `objects`.
    pub fn segment(pred: Option<SegmentID>, objects: ObjectFilter) -> (f: Self)
        ensures
            f.items@ == seq![ItemFilter::Segment(pred, objects)],
    {
        Self::of(ItemFilter::Segment(pred, objects))
    }

    /// Creates a filter matching the sections that `pred` describes: those of a type, or all,
    /// in the objects that meet `objects`.
    pub fn section(pred: Option<SectionID>, objects: ObjectFilter) -> (f: Self)
        ensures
            f.items@ == seq![ItemFilter::Section(pred, objects)],
    {
        Self::of(ItemFilter::Section(pred, objects))
    }

    /// Creates a filter matching all objects.
    pub fn any_object() -> (f: Self)
        ensures
            f.items@ == seq![ItemFilter::Object(ObjectFilter { mask: ObjectMask::Any, os_abi: 0, elf_type: 0 })],
            forall|obj: Object| f.spec_matches_object(&obj),
    {
        let f = Self::object(ObjectFilter::any());
        assert forall|obj: Object| f.spec_matches_object(&obj) by {
            assert(f.items@[0].selects_object(&obj));
        }
        f
    }

    /// Creates a filter matching all segments.
    pub fn any_segment() -> (f: Self)
        ensures
            f.items@ == seq![ItemFilter::Segment(None, ObjectFilter { mask: ObjectMask::Any, os_abi: 0, elf_type: 0 })],
            forall|s: Segment, obj: Object| f.spec_matches_segment(&s, &obj),
    {
        let f = Self::segment(None, ObjectFilter::any());
        assert forall|s: Segment, obj: Object| f.spec_matches_segment(&s, &obj) by {
            assert(f.items@[0].selects_segment(&s, &obj));
        }
        f
    }

    /// Creates a filter matching all sections.
    pub fn any_section() -> (f: Self)
        ensures
            f.items@ == seq![ItemFilter::Section(None, ObjectFilter { mask: ObjectMask::Any, os_abi: 0, elf_type: 0 })],
            forall|s: Section, obj: Object| f.spec_matches_section(&s, &obj),
    {
        let f = Self::section(None, ObjectFilter::any());
        assert forall|s: Section, obj: Object| f.spec_matches_section(&s, &obj) by {
            assert(f.items@[0].selects_section(&s, &obj));
        }
        f
    }

    /// Creates a filter matching the segments of the given tag.
    pub fn segment_type(tag: u32) -> (f: Self)
        ensures
            f.items@ == seq![ItemFilter::Segment(Some(SegmentID { tag }), ObjectFilter { mask: ObjectMask::Any, os_abi: 0, elf_type: 0 })],
            forall|s: Segment, obj: Object| f.spec_matches_segment(&s, &obj) == (s.tag == tag),
    {
        let f = Self::segment(Some(segment(tag)), ObjectFilter::any());
        assert forall|s: Segment, obj: Object| f.spec_matches_segment(&s, &obj) == (s.tag
            == tag) by {
            if s.tag == tag {
                assert(f.items@[0].selects_segment(&s, &obj));
            }
        }
        f
    }

    /// Creates a filter matching the sections of the given tag.
    pub fn section_type(tag: u32) -> (f: Self)
        ensures
            f.items@ == seq![ItemFilter::Section(Some(SectionID { tag }), ObjectFilter { mask: ObjectMask::Any, os_abi: 0, elf_type: 0 })],
            forall|s: Section, obj: Object| f.spec_matches_section(&s, &obj) == (s.tag == tag),
    {
        let f = Self::section(Some(section(tag)), ObjectFilter::any());
        assert forall|s: Section, obj: Object| f.spec_matches_section(&s, &obj) == (s.tag
            == tag) by {
            if s.tag == tag {
                assert(f.items@[0].selects_section(&s, &obj));
            }
        }
        f
    }

    /// The filter that matches what this filter matches and what `rhs` matches.
    pub fn or(self, rhs: Self) -> (f: Self)
        ensures
            f.items@ == self.items@ + rhs.items@,
    {
        let mut items = self.items;
        let mut more = rhs.items;
        items.append(&mut more);
        Filter { items }
    }
}

/// A combined filter matches exactly what one of its two parts matches.
pub proof fn lemma_or_is_disjunction(a: Filter, b: Filter, f: Filter, obj: Object, segment: Segment, section: Section)
    requires
        f.items@ == a.items@ + b.items@,
    ensures
        f.spec_matches_manifold() == (a.spec_matches_manifold() || b.spec_matches_manifold()),
        f.spec_matches_object(&obj) == (a.spec_matches_object(&obj) || b.spec_matches_object(
            &obj,
        )),
        f.spec_is_segment_filter() == (a.spec_is_segment_filter() || b.spec_is_segment_filter()),
        f.spec_matches_segment(&segment, &obj) == (a.spec_matches_segment(&segment, &obj)
            || b.spec_matches_segment(&segment, &obj)),
        f.spec_is_section_filter() == (a.spec_is_section_filter() || b.spec_is_section_filter()),
        f.spec_matches_section(&section, &obj) == (a.spec_matches_section(&section, &obj)
            || b.spec_matches_section(&section, &obj)),
{
    let n = a.items@.len() as int;
    assert forall|i: int| 0 <= i < a.items@.len() implies f.items@[i] == a.items@[i] by {}
    assert forall|i: int| 0 <= i < b.items@.len() implies f.items@[n + i] == b.items@[i] by {}
    lemma_exists_over_concat(a.items@, b.items@, |x: ItemFilter| x is Manifold);
    lemma_exists_over_concat(a.items@, b.items@, |x: ItemFilter| x.selects_object(&obj));
    lemma_exists_over_concat(a.items@, b.items@, |x: ItemFilter| x is Segment);
    lemma_exists_over_concat(a.items@, b.items@, |x: ItemFilter| x.selects_segment(&segment, &obj));
    lemma_exists_over_concat(a.items@, b.items@, |x: ItemFilter| x is Section);
    lemma_exists_over_concat(a.items@, b.items@, |x: ItemFilter| x.selects_section(&section, &obj));
}

/// Whether `p` holds of an element of `s`.
pub open spec fn any_of(s: Seq<ItemFilter>, p: spec_fn(ItemFilter) -> bool) -> bool {
    exists|i: int| 0 <= i < s.len() && p(#[trigger] s[i])
}

/// `p` holds of an element of a concatenation where it holds of an element of a part.
pub proof fn lemma_exists_over_concat(a: Seq<ItemFilter>, b: Seq<ItemFilter>, p: spec_fn(ItemFilter) -> bool)
    ensures
        any_of(a + b, p) == (any_of(a, p) || any_of(b, p)),
{
    let f = a + b;
    if any_of(f, p) {
        let i = choose|i: int| 0 <= i < f.len() && p(#[trigger] f[i]);
        if i < a.len() {
            assert(p(a[i]));
        } else {
            assert(p(b[i - a.len()]));
        }
    }
    if any_of(a, p) {
        let i = choose|i: int| 0 <= i < a.len() && p(#[trigger] a[i]);
        assert(p(f[i]));
    }
    if any_of(b, p) {
        let i = choose|i: int| 0 <= i < b.len() && p(#[trigger] b[i]);
        assert(p(f[a.len() + i]));
    }
}

} // verus!
