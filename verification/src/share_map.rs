//! Typed shared memory between modules.
//!
//! A [`ShareMap`] maps names to values of several types. A [`ShareMapKey`] is a name together
//! with the type of the value that its user expects. Writing goes by the name alone: `insert`
//! replaces whatever the name held, of whatever type. Reading goes by name and type: `get`
//! returns `None` both where nothing is stored under the name and where what is stored is of
//! another type than the key's. So the last writer wins, and a reader that expects another type
//! sees nothing.

use crate::arena::Handle;
use crate::bytes::bytes_eq;
use crate::file::MappingMut;
use crate::musl::MuslObjectIdx;
use crate::object::Object;
use crate::sysv::collector::{RemapEntry, SysvCollectorEntry};
use crate::sysv::tls::collection::TlsModule;
use core::marker::PhantomData;
use vstd::prelude::*;
use vstd::string::StringSliceAdditionalSpecFns;

verus! {

/// The types of value that a [`ShareMap`] stores.
#[derive(Debug, Clone, Copy, PartialEq, Eq, Structural)]
pub enum ShareKind {
    Word,
    Bytes,
    Paths,
    Remap,
    Collected,
    Object,
    Mapping,
    TlsModule,
    TlsModules,
    MuslObject,
}

/// A value of a [`ShareMap`], of any of the types it stores.
#[derive(Debug)]
pub enum ShareValue {
    /// A machine word: a number or an address.
    Word(usize),
    /// A byte string.
    Bytes(Vec<u8>),
    /// A list of byte strings: paths or names.
    Paths(Vec<Vec<u8>>),
    /// The replacements of the dependency collector.
    Remap(Vec<RemapEntry>),
    /// The dependencies that the collector found.
    Collected(Vec<SysvCollectorEntry>),
    /// A handle of an object.
    Object(Handle<Object>),
    /// A read-write memory region.
    Mapping(MappingMut),
    /// A module of thread-local storage.
    TlsModule(TlsModule),
    /// The modules of thread-local storage.
    TlsModules(Vec<TlsModule>),
    /// Where a variable of the C library lies.
    MuslObject(MuslObjectIdx),
}

impl ShareValue {
    /// The type of the value held.
    pub open spec fn kind(self) -> ShareKind {
        match self {
            ShareValue::Word(_) => ShareKind::Word,
            ShareValue::Bytes(_) => ShareKind::Bytes,
            ShareValue::Paths(_) => ShareKind::Paths,
            ShareValue::Remap(_) => ShareKind::Remap,
            ShareValue::Collected(_) => ShareKind::Collected,
            ShareValue::Object(_) => ShareKind::Object,
            ShareValue::Mapping(_) => ShareKind::Mapping,
            ShareValue::TlsModule(_) => ShareKind::TlsModule,
            ShareValue::TlsModules(_) => ShareKind::TlsModules,
            ShareValue::MuslObject(_) => ShareKind::MuslObject,
        }
    }
}

/// A type whose values a [`ShareMap`] stores.
pub trait Shared: Sized {
    /// The type, as the map knows it.
    spec fn kind() -> ShareKind;

    /// The value as the map stores it.
    spec fn wrap(self) -> ShareValue;

    /// The value that the map stores as `v`, for a `v` of this type.
    spec fn unwrap(v: ShareValue) -> Self;

    /// `wrap` and `unwrap` are inverse on the values of this type.
    proof fn lemma_wrap_unwrap(x: Self, v: ShareValue)
        ensures
            x.wrap().kind() == Self::kind(),
            Self::unwrap(x.wrap()) == x,
            v.kind() == Self::kind() ==> Self::unwrap(v).wrap() == v,
    ;

    fn into_value(self) -> (v: ShareValue)
        ensures
            v == self.wrap(),
    ;

    fn from_value(v: &ShareValue) -> (r: Option<&Self>)
        ensures
            r.is_some() == (v.kind() == Self::kind()),
            r matches Some(x) ==> *x == Self::unwrap(*v),
    ;

    fn from_value_mut(v: &mut ShareValue) -> (r: Option<&mut Self>)
        ensures
            r.is_some() == (old(v).kind() == Self::kind()),
            r matches Some(x) ==> *x == Self::unwrap(*old(v)) && *final(v) == (*final(x)).wrap(),
            r.is_none() ==> *final(v) == *old(v),
    ;
}

impl Shared for usize {
    open spec fn kind() -> ShareKind {
        ShareKind::Word
    }

    open spec fn wrap(self) -> ShareValue {
        ShareValue::Word(self)
    }

    open spec fn unwrap(v: ShareValue) -> usize {
        match v {
            ShareValue::Word(x) => x,
            _ => arbitrary(),
        }
    }

    proof fn lemma_wrap_unwrap(x: usize, v: ShareValue) {
    }

    fn into_value(self) -> (v: ShareValue) {
        ShareValue::Word(self)
    }

    fn from_value(v: &ShareValue) -> (r: Option<&usize>) {
        match v {
            ShareValue::Word(x) => Some(x),
            _ => None,
        }
    }

    fn from_value_mut(v: &mut ShareValue) -> (r: Option<&mut usize>) {
        match v {
            ShareValue::Word(x) => Some(x),
            _ => None,
        }
    }
}

impl Shared for Vec<u8> {
    open spec fn kind() -> ShareKind {
        ShareKind::Bytes
    }

    open spec fn wrap(self) -> ShareValue {
        ShareValue::Bytes(self)
    }

    open spec fn unwrap(v: ShareValue) -> Vec<u8> {
        match v {
            ShareValue::Bytes(x) => x,
            _ => arbitrary(),
        }
    }

    proof fn lemma_wrap_unwrap(x: Vec<u8>, v: ShareValue) {
    }

    fn into_value(self) -> (v: ShareValue) {
        ShareValue::Bytes(self)
    }

    fn from_value(v: &ShareValue) -> (r: Option<&Vec<u8>>) {
        match v {
            ShareValue::Bytes(x) => Some(x),
            _ => None,
        }
    }

    fn from_value_mut(v: &mut ShareValue) -> (r: Option<&mut Vec<u8>>) {
        match v {
            ShareValue::Bytes(x) => Some(x),
            _ => None,
        }
    }
}

impl Shared for Vec<Vec<u8>> {
    open spec fn kind() -> ShareKind {
        ShareKind::Paths
    }

    open spec fn wrap(self) -> ShareValue {
        ShareValue::Paths(self)
    }

    open spec fn unwrap(v: ShareValue) -> Vec<Vec<u8>> {
        match v {
            ShareValue::Paths(x) => x,
            _ => arbitrary(),
        }
    }

    proof fn lemma_wrap_unwrap(x: Vec<Vec<u8>>, v: ShareValue) {
    }

    fn into_value(self) -> (v: ShareValue) {
        ShareValue::Paths(self)
    }

    fn from_value(v: &ShareValue) -> (r: Option<&Vec<Vec<u8>>>) {
        match v {
            ShareValue::Paths(x) => Some(x),
            _ => None,
        }
    }

    fn from_value_mut(v: &mut ShareValue) -> (r: Option<&mut Vec<Vec<u8>>>) {
        match v {
            ShareValue::Paths(x) => Some(x),
            _ => None,
        }
    }
}

impl Shared for Vec<RemapEntry> {
    open spec fn kind() -> ShareKind {
        ShareKind::Remap
    }

    open spec fn wrap(self) -> ShareValue {
        ShareValue::Remap(self)
    }

    open spec fn unwrap(v: ShareValue) -> Vec<RemapEntry> {
        match v {
            ShareValue::Remap(x) => x,
            _ => arbitrary(),
        }
    }

    proof fn lemma_wrap_unwrap(x: Vec<RemapEntry>, v: ShareValue) {
    }

    fn into_value(self) -> (v: ShareValue) {
        ShareValue::Remap(self)
    }

    fn from_value(v: &ShareValue) -> (r: Option<&Vec<RemapEntry>>) {
        match v {
            ShareValue::Remap(x) => Some(x),
            _ => None,
        }
    }

    fn from_value_mut(v: &mut ShareValue) -> (r: Option<&mut Vec<RemapEntry>>) {
        match v {
            ShareValue::Remap(x) => Some(x),
            _ => None,
        }
    }
}

impl Shared for Vec<SysvCollectorEntry> {
    open spec fn kind() -> ShareKind {
        ShareKind::Collected
    }

    open spec fn wrap(self) -> ShareValue {
        ShareValue::Collected(self)
    }

    open spec fn unwrap(v: ShareValue) -> Vec<SysvCollectorEntry> {
        match v {
            ShareValue::Collected(x) => x,
            _ => arbitrary(),
        }
    }

    proof fn lemma_wrap_unwrap(x: Vec<SysvCollectorEntry>, v: ShareValue) {
    }

    fn into_value(self) -> (v: ShareValue) {
        ShareValue::Collected(self)
    }

    fn from_value(v: &ShareValue) -> (r: Option<&Vec<SysvCollectorEntry>>) {
        match v {
            ShareValue::Collected(x) => Some(x),
            _ => None,
        }
    }

    fn from_value_mut(v: &mut ShareValue) -> (r: Option<&mut Vec<SysvCollectorEntry>>) {
        match v {
            ShareValue::Collected(x) => Some(x),
            _ => None,
        }
    }
}

impl Shared for Handle<Object> {
    open spec fn kind() -> ShareKind {
        ShareKind::Object
    }

    open spec fn wrap(self) -> ShareValue {
        ShareValue::Object(self)
    }

    open spec fn unwrap(v: ShareValue) -> Handle<Object> {
        match v {
            ShareValue::Object(x) => x,
            _ => arbitrary(),
        }
    }

    proof fn lemma_wrap_unwrap(x: Handle<Object>, v: ShareValue) {
    }

    fn into_value(self) -> (v: ShareValue) {
        ShareValue::Object(self)
    }

    fn from_value(v: &ShareValue) -> (r: Option<&Handle<Object>>) {
        match v {
            ShareValue::Object(x) => Some(x),
            _ => None,
        }
    }

    fn from_value_mut(v: &mut ShareValue) -> (r: Option<&mut Handle<Object>>) {
        match v {
            ShareValue::Object(x) => Some(x),
            _ => None,
        }
    }
}

impl Shared for MappingMut {
    open spec fn kind() -> ShareKind {
        ShareKind::Mapping
    }

    open spec fn wrap(self) -> ShareValue {
        ShareValue::Mapping(self)
    }

    open spec fn unwrap(v: ShareValue) -> MappingMut {
        match v {
            ShareValue::Mapping(x) => x,
            _ => arbitrary(),
        }
    }

    proof fn lemma_wrap_unwrap(x: MappingMut, v: ShareValue) {
    }

    fn into_value(self) -> (v: ShareValue) {
        ShareValue::Mapping(self)
    }

    fn from_value(v: &ShareValue) -> (r: Option<&MappingMut>) {
        match v {
            ShareValue::Mapping(x) => Some(x),
            _ => None,
        }
    }

    fn from_value_mut(v: &mut ShareValue) -> (r: Option<&mut MappingMut>) {
        match v {
            ShareValue::Mapping(x) => Some(x),
            _ => None,
        }
    }
}

impl Shared for TlsModule {
    open spec fn kind() -> ShareKind {
        ShareKind::TlsModule
    }

    open spec fn wrap(self) -> ShareValue {
        ShareValue::TlsModule(self)
    }

    open spec fn unwrap(v: ShareValue) -> TlsModule {
        match v {
            ShareValue::TlsModule(x) => x,
            _ => arbitrary(),
        }
    }

    proof fn lemma_wrap_unwrap(x: TlsModule, v: ShareValue) {
    }

    fn into_value(self) -> (v: ShareValue) {
        ShareValue::TlsModule(self)
    }

    fn from_value(v: &ShareValue) -> (r: Option<&TlsModule>) {
        match v {
            ShareValue::TlsModule(x) => Some(x),
            _ => None,
        }
    }

    fn from_value_mut(v: &mut ShareValue) -> (r: Option<&mut TlsModule>) {
        match v {
            ShareValue::TlsModule(x) => Some(x),
            _ => None,
        }
    }
}

impl Shared for Vec<TlsModule> {
    open spec fn kind() -> ShareKind {
        ShareKind::TlsModules
    }

    open spec fn wrap(self) -> ShareValue {
        ShareValue::TlsModules(self)
    }

    open spec fn unwrap(v: ShareValue) -> Vec<TlsModule> {
        match v {
            ShareValue::TlsModules(x) => x,
            _ => arbitrary(),
        }
    }

    proof fn lemma_wrap_unwrap(x: Vec<TlsModule>, v: ShareValue) {
    }

    fn into_value(self) -> (v: ShareValue) {
        ShareValue::TlsModules(self)
    }

    fn from_value(v: &ShareValue) -> (r: Option<&Vec<TlsModule>>) {
        match v {
            ShareValue::TlsModules(x) => Some(x),
            _ => None,
        }
    }

    fn from_value_mut(v: &mut ShareValue) -> (r: Option<&mut Vec<TlsModule>>) {
        match v {
            ShareValue::TlsModules(x) => Some(x),
            _ => None,
        }
    }
}

impl Shared for MuslObjectIdx {
    open spec fn kind() -> ShareKind {
        ShareKind::MuslObject
    }

    open spec fn wrap(self) -> ShareValue {
        ShareValue::MuslObject(self)
    }

    open spec fn unwrap(v: ShareValue) -> MuslObjectIdx {
        match v {
            ShareValue::MuslObject(x) => x,
            _ => arbitrary(),
        }
    }

    proof fn lemma_wrap_unwrap(x: MuslObjectIdx, v: ShareValue) {
    }

    fn into_value(self) -> (v: ShareValue) {
        ShareValue::MuslObject(self)
    }

    fn from_value(v: &ShareValue) -> (r: Option<&MuslObjectIdx>) {
        match v {
            ShareValue::MuslObject(x) => Some(x),
            _ => None,
        }
    }

    fn from_value_mut(v: &mut ShareValue) -> (r: Option<&mut MuslObjectIdx>) {
        match v {
            ShareValue::MuslObject(x) => Some(x),
            _ => None,
        }
    }
}

/// A key into a [`ShareMap`]: a name, and the type `T` of the value expected under it.
///
/// By convention keys are constants that the module which writes the value makes public.
#[derive(Debug)]
pub struct ShareMapKey<T> {
    pub key: &'static str,
    _marker: PhantomData<T>,
}

impl<T> ShareMapKey<T> {
    /// The name, as bytes.
    pub closed spec fn name(self) -> Seq<u8> {
        self.key.spec_bytes()
    }

    /// The key of name `key`.
    pub closed spec fn named(key: &'static str) -> Self {
        Self { key, _marker: PhantomData }
    }

    pub fn new(key: &'static str) -> (k: Self)
        ensures
            k == Self::named(key),
            k.name() == key.spec_bytes(),
    {
        Self { key, _marker: PhantomData }
    }
}

impl<T> Clone for ShareMapKey<T> {
    fn clone(&self) -> (k: Self)
        ensures
            k == *self,
    {
        Self { key: self.key, _marker: PhantomData }
    }
}

impl<T> Copy for ShareMapKey<T> {

}

/// One name with its value.
#[derive(Debug)]
pub struct ShareEntry {
    pub key: &'static str,
    pub value: ShareValue,
}

/// The position at or after `from` of the first entry of `entries` named `name`, or the length
/// of `entries` where none is.
pub open spec fn position_from(entries: Seq<ShareEntry>, name: Seq<u8>, from: int) -> int
    decreases entries.len() - from,
{
    if from < 0 || from >= entries.len() {
        entries.len() as int
    } else if entries[from].key.spec_bytes() == name {
        from
    } else {
        position_from(entries, name, from + 1)
    }
}

/// The position in `entries` of the first entry named `name`, or the length of `entries` where
/// none is.
pub open spec fn position_of(entries: Seq<ShareEntry>, name: Seq<u8>) -> int {
    position_from(entries, name, 0)
}

/// Whether `p` is the position of the first entry named `name`.
pub open spec fn is_first_named(entries: Seq<ShareEntry>, name: Seq<u8>, p: int) -> bool {
    &&& 0 <= p <= entries.len()
    &&& forall|j: int| 0 <= j < p ==> (#[trigger] entries[j]).key.spec_bytes() != name
    &&& p < entries.len() ==> entries[p].key.spec_bytes() == name
}

/// `position_from` finds the first entry of the name at or after `from`.
pub proof fn lemma_position_from(entries: Seq<ShareEntry>, name: Seq<u8>, from: int)
    requires
        0 <= from <= entries.len(),
    ensures
        from <= position_from(entries, name, from) <= entries.len(),
        forall|j: int|
            from <= j < position_from(entries, name, from) ==> (#[trigger] entries[j]).key.spec_bytes()
                != name,
        position_from(entries, name, from) < entries.len() ==> entries[position_from(
            entries,
            name,
            from,
        )].key.spec_bytes() == name,
    decreases entries.len() - from,
{
    if from < entries.len() && entries[from].key.spec_bytes() != name {
        lemma_position_from(entries, name, from + 1);
    }
}

/// `position_of` is the one position that `is_first_named` describes.
pub proof fn lemma_position_of(entries: Seq<ShareEntry>, name: Seq<u8>, p: int)
    ensures
        is_first_named(entries, name, position_of(entries, name)),
        is_first_named(entries, name, p) ==> p == position_of(entries, name),
{
    lemma_position_from(entries, name, 0);
    let q = position_of(entries, name);
    if is_first_named(entries, name, p) {
        if p < q {
            assert(entries[p].key.spec_bytes() != name);
        }
        if q < p {
            assert(entries[q].key.spec_bytes() != name);
        }
    }
}

/// Shared memory between modules: names with values of several types.
#[derive(Debug)]
pub struct ShareMap {
    map: Vec<ShareEntry>,
}

impl ShareMap {
    /// The value stored under `name`, whatever its type.
    pub closed spec fn lookup(&self, name: Seq<u8>) -> Option<ShareValue> {
        let i = position_of(self.map@, name);
        if i < self.map@.len() {
            Some(self.map@[i].value)
        } else {
            None
        }
    }

    /// The value of type `T` stored under `key`: `None` where nothing is stored under its name,
    /// and where what is stored is of another type.
    pub open spec fn spec_get<T: Shared>(&self, key: ShareMapKey<T>) -> Option<T> {
        match self.lookup(key.name()) {
            Some(v) => if v.kind() == T::kind() {
                Some(T::unwrap(v))
            } else {
                None
            },
            None => None,
        }
    }

    /// An empty map.
    pub fn new() -> (m: Self)
        ensures
            forall|name: Seq<u8>| m.lookup(name).is_none(),
    {
        Self { map: Vec::new() }
    }

    fn find(&self, key: &'static str) -> (i: usize)
        ensures
            i == position_of(self.map@, key.spec_bytes()),
            i <= self.map@.len(),
    {
        let mut i: usize = 0;
        while i < self.map.len()
            invariant
                i <= self.map@.len(),
                position_of(self.map@, key.spec_bytes()) == position_from(
                    self.map@,
                    key.spec_bytes(),
                    i as int,
                ),
            decreases self.map@.len() - i,
        {
            if bytes_eq(self.map[i].key.as_bytes(), key.as_bytes()) {
                return i;
            }
            i = i + 1;
        }
        i
    }

    /// Insert a new value in the map, overwriting any value registered with the same name,
    /// whatever its type. Other names keep their values.
    pub fn insert<T: Shared>(&mut self, key: ShareMapKey<T>, value: T)
        ensures
            final(self).lookup(key.name()) == Some(value.wrap()),
            final(self).spec_get(key) == Some(value),
            forall|name: Seq<u8>|
                name != key.name() ==> final(self).lookup(name) == old(self).lookup(name),
    {
        proof {
            T::lemma_wrap_unwrap(value, value.wrap());
        }
        let i = self.find(key.key);
        let entry = ShareEntry { key: key.key, value: value.into_value() };
        if i < self.map.len() {
            self.map[i] = entry;
            proof {
                let before = old(self).map@;
                lemma_position_after_set(before, i as int, entry);
                assert(self.map@ == before.update(i as int, entry));
                assert forall|name: Seq<u8>| name != key.name() implies self.lookup(name) == old(
                    self,
                ).lookup(name) by {
                    lemma_position_of(before, name, 0);
                    lemma_position_of(before, key.name(), 0);
                    let p = position_of(before, name);
                    assert(position_of(before.update(i as int, entry), name) == p);
                    assert(p != i);
                }
            }
        } else {
            self.map.push(entry);
            proof {
                let before = old(self).map@;
                lemma_position_after_push(before, entry);
                assert(self.map@ == before.push(entry));
                assert forall|name: Seq<u8>| name != key.name() implies self.lookup(name) == old(
                    self,
                ).lookup(name) by {
                    lemma_position_of(before, name, 0);
                    let p = position_of(before.push(entry), name);
                }
            }
        }
    }

    /// Retrieves a value from the map. The type `T` of the `key` must match the type of the
    /// value in the map.
    pub fn get<T: Shared>(&self, key: ShareMapKey<T>) -> (r: Option<&T>)
        ensures
            r.is_some() == self.spec_get(key).is_some(),
            r matches Some(x) ==> self.spec_get(key) == Some(*x),
    {
        let i = self.find(key.key);
        if i < self.map.len() {
            T::from_value(&self.map[i].value)
        } else {
            None
        }
    }
}

impl ShareMap {
    /// Retrieves a value from the map for writing. The type `T` of the `key` must match the
    /// type of the value in the map. What is written replaces the value under the key's name;
    /// other names keep their values.
    pub fn get_mut<T: Shared>(&mut self, key: ShareMapKey<T>) -> (r: Option<&mut T>)
        ensures
            r.is_some() == old(self).spec_get(key).is_some(),
            r matches Some(x) ==> old(self).spec_get(key) == Some(*x) && final(self).lookup(
                key.name(),
            ) == Some((*final(x)).wrap()),
            r.is_none() ==> final(self).lookup(key.name()) == old(self).lookup(key.name()),
            forall|name: Seq<u8>|
                name != key.name() ==> final(self).lookup(name) == old(self).lookup(name),
    {
        let i = self.find(key.key);
        if i < self.map.len() {
            let r = T::from_value_mut(self.value_mut(i, Ghost(key.name())));
            r
        } else {
            None
        }
    }

    /// The value of entry `i`, which must be the first of its name, for writing. The entry
    /// keeps its name; the other names keep their values.
    fn value_mut(&mut self, i: usize, Ghost(name): Ghost<Seq<u8>>) -> (r: &mut ShareValue)
        requires
            i < old(self).map@.len(),
            i == position_of(old(self).map@, name),
        ensures
            Some(*r) == old(self).lookup(name),
            final(self).lookup(name) == Some(*final(r)),
            forall|other: Seq<u8>|
                other != name ==> final(self).lookup(other) == old(self).lookup(other),
    {
        proof {
            let before = self.map@;
            let key = before[i as int].key;
            lemma_position_of(before, name, 0);
            assert forall|other: Seq<u8>|
                0 <= #[trigger] position_of(before, other) && (other != name ==> position_of(
                    before,
                    other,
                ) != i) by {
                lemma_position_of(before, other, 0);
            }
            assert forall|e: ShareEntry, other: Seq<u8>| e.key == key implies #[trigger]
                position_of(before.update(i as int, e), other) == position_of(before, other) by {
                lemma_position_after_set(before, i as int, e);
            }
        }
        let entry = &mut self.map[i];
        &mut entry.value
    }

    /// Stores what `absent` makes where nothing is stored under the name of `key`; lets `update`
    /// change the value where one of the key's type is stored. Where a value of another type
    /// is stored, nothing changes and `false` is returned.
    pub fn insert_or_update<T: Shared, A: FnOnce() -> T, U: FnOnce(&mut T)>(
        &mut self,
        key: ShareMapKey<T>,
        absent: A,
        update: U,
    ) -> (done: bool)
        requires
            absent.requires(()),
            forall|t: &mut T| update.requires((t,)),
        ensures
            done == match old(self).lookup(key.name()) {
                Some(v) => v.kind() == T::kind(),
                None => true,
            },
            !done ==> final(self).lookup(key.name()) == old(self).lookup(key.name()),
            done ==> final(self).spec_get(key).is_some(),
            old(self).lookup(key.name()).is_none() ==> absent.ensures(
                (),
                final(self).spec_get(key).unwrap(),
            ),
            old(self).spec_get(key) matches Some(before) ==> exists|value: &mut T|
                {
                    &&& #[trigger] update.ensures((value,), ())
                    &&& *value == before
                    &&& final(self).spec_get(key) == Some(*final(value))
                },
            forall|name: Seq<u8>|
                name != key.name() ==> final(self).lookup(name) == old(self).lookup(name),
    {
        if !self.holds_name(key) {
            let value = absent();
            self.insert(key, value);
            true
        } else {
            match self.get_mut(key) {
                Some(entry) => {
                    update(entry);
                    proof {
                        T::lemma_wrap_unwrap(*final(entry), (*final(entry)).wrap());
                    }
                    true
                },
                None => false,
            }
        }
    }

    /// Whether a value is stored under the name of `key`, whatever its type.
    pub fn holds_name<T>(&self, key: ShareMapKey<T>) -> (b: bool)
        ensures
            b == self.lookup(key.name()).is_some(),
    {
        let i = self.find(key.key);
        i < self.map.len()
    }
}

/// The name of the key made for `a` is `a`, as bytes.
pub proof fn lemma_name_of_named<T>(a: &'static str)
    ensures
        ShareMapKey::<T>::named(a).name() == a.spec_bytes(),
{
}

/// Two different texts that are written in ASCII are different names.
pub proof fn lemma_texts_differ<T, U>(a: &'static str, b: &'static str)
    requires
        vstd::string::is_ascii(a),
        vstd::string::is_ascii(b),
        a@ != b@,
    ensures
        ShareMapKey::<T>::named(a).name() != ShareMapKey::<U>::named(b).name(),
{
    vstd::string::is_ascii_spec_bytes(a);
    vstd::string::is_ascii_spec_bytes(b);
    if a.spec_bytes() == b.spec_bytes() {
        assert(a.spec_bytes().len() == a@.len());
        assert(b.spec_bytes().len() == b@.len());
        assert forall|i: int| 0 <= i < a@.len() implies a@[i] == b@[i] by {
            assert(a.spec_bytes()[i] == a@[i] as u8);
            assert(b.spec_bytes()[i] == b@[i] as u8);
            assert('\0' <= a@[i] <= '\u{7f}');
            assert('\0' <= b@[i] <= '\u{7f}');
        }
        assert(a@ =~= b@);
    }
}

/// Two names of different lengths that are written in ASCII are different names.
pub proof fn lemma_names_differ<T, U>(a: &'static str, b: &'static str)
    requires
        vstd::string::is_ascii(a),
        vstd::string::is_ascii(b),
        a@.len() != b@.len(),
    ensures
        ShareMapKey::<T>::named(a).name() != ShareMapKey::<U>::named(b).name(),
{
    vstd::string::is_ascii_spec_bytes(a);
    vstd::string::is_ascii_spec_bytes(b);
    assert(a.spec_bytes().len() == a@.len());
    assert(b.spec_bytes().len() == b@.len());
    assert(ShareMapKey::<T>::named(a).name() == a.spec_bytes());
    assert(ShareMapKey::<U>::named(b).name() == b.spec_bytes());
}

/// What is written under a key is read back under that key, and under no key of the same name
/// that expects another type.
pub proof fn lemma_typed_read<T: Shared, U: Shared>(
    map: ShareMap,
    key: ShareMapKey<T>,
    other: ShareMapKey<U>,
    value: T,
)
    requires
        map.lookup(key.name()) == Some(value.wrap()),
        other.name() == key.name(),
    ensures
        map.spec_get(key) == Some(value),
        U::kind() != T::kind() ==> map.spec_get(other).is_none(),
        U::kind() == T::kind() ==> map.spec_get(other).is_some(),
{
    T::lemma_wrap_unwrap(value, value.wrap());
}

/// Replacing the first entry of a name by another entry of that name changes no position.
pub proof fn lemma_position_after_set(entries: Seq<ShareEntry>, i: int, entry: ShareEntry)
    requires
        0 <= i < entries.len(),
        i == position_of(entries, entry.key.spec_bytes()),
    ensures
        forall|name: Seq<u8>| #[trigger]
            position_of(entries.update(i, entry), name) == position_of(entries, name),
{
    let after = entries.update(i, entry);
    lemma_position_of(entries, entry.key.spec_bytes(), i);
    assert forall|name: Seq<u8>| #[trigger]
        position_of(after, name) == position_of(entries, name) by {
        let p = position_of(entries, name);
        lemma_position_of(entries, name, p);
        assert forall|j: int| 0 <= j < p implies (#[trigger] after[j]).key.spec_bytes()
            != name by {
            assert(entries[j].key.spec_bytes() != name);
        }
        assert(is_first_named(after, name, p));
        lemma_position_of(after, name, p);
    }
}

/// Appending an entry whose name is new gives that name the last position, and changes the
/// position of no name that had an entry.
pub proof fn lemma_position_after_push(entries: Seq<ShareEntry>, entry: ShareEntry)
    requires
        position_of(entries, entry.key.spec_bytes()) == entries.len(),
    ensures
        position_of(entries.push(entry), entry.key.spec_bytes()) == entries.len(),
        forall|name: Seq<u8>|
            name != entry.key.spec_bytes() ==> {
                let p = #[trigger] position_of(entries.push(entry), name);
                let q = position_of(entries, name);
                if q < entries.len() {
                    p == q
                } else {
                    p == entries.len() + 1
                }
            },
{
    let after = entries.push(entry);
    assert forall|name: Seq<u8>|
        {
            let p = #[trigger] position_of(after, name);
            let q = position_of(entries, name);
            if q < entries.len() {
                p == q
            } else if name == entry.key.spec_bytes() {
                p == entries.len()
            } else {
                p == entries.len() + 1
            }
        } by {
        let q = position_of(entries, name);
        lemma_position_of(entries, name, q);
        let want: int = if q < entries.len() {
            q
        } else if name == entry.key.spec_bytes() {
            entries.len() as int
        } else {
            entries.len() as int + 1
        };
        assert forall|j: int| 0 <= j < want implies (#[trigger] after[j]).key.spec_bytes()
            != name by {
            if j < entries.len() {
                assert(entries[j].key.spec_bytes() != name);
            }
        }
        assert(is_first_named(after, name, want));
        lemma_position_of(after, name, want);
    }
}

} // verus!
