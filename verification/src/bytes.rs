//! Little-endian integers in byte strings.

use vstd::prelude::*;
use vstd::slice::slice_subrange;

verus! {

/// The number that the bytes `s` write in base 256, least significant byte first.
pub open spec fn le_value(s: Seq<u8>) -> nat
    decreases s.len(),
{
    if s.len() == 0 {
        0
    } else {
        s[0] as nat + 256 * le_value(s.drop_first())
    }
}

/// The two's complement reading of a 64-bit word.
pub open spec fn signed64(u: nat) -> int {
    if u >= 0x8000_0000_0000_0000 {
        u - 0x1_0000_0000_0000_0000
    } else {
        u as int
    }
}

/// The two's complement reading of a 32-bit word.
pub open spec fn signed32(u: nat) -> int {
    if u >= 0x8000_0000 {
        u - 0x1_0000_0000
    } else {
        u as int
    }
}

/// `le_value` of one byte.
pub proof fn lemma_le_value_1(s: Seq<u8>)
    requires
        s.len() == 1,
    ensures
        le_value(s) == s[0],
{
    reveal_with_fuel(le_value, 2);
}

/// `le_value` of two bytes.
pub proof fn lemma_le_value_2(s: Seq<u8>)
    requires
        s.len() == 2,
    ensures
        le_value(s) == s[0] + 0x100 * s[1],
        le_value(s) <= u16::MAX,
{
    reveal_with_fuel(le_value, 3);
}

/// `le_value` of four bytes.
pub proof fn lemma_le_value_4(s: Seq<u8>)
    requires
        s.len() == 4,
    ensures
        le_value(s) == s[0] + 0x100 * s[1] + 0x1_0000 * s[2] + 0x100_0000 * s[3],
        le_value(s) <= u32::MAX,
{
    reveal_with_fuel(le_value, 5);
}

/// `le_value` of eight bytes.
pub proof fn lemma_le_value_8(s: Seq<u8>)
    requires
        s.len() == 8,
    ensures
        le_value(s) == s[0] + 0x100 * s[1] + 0x1_0000 * s[2] + 0x100_0000 * s[3] + 0x1_0000_0000
            * s[4] + 0x100_0000_0000 * s[5] + 0x1_0000_0000_0000 * s[6] + 0x100_0000_0000_0000
            * s[7],
        le_value(s) <= u64::MAX,
{
    lemma_le_value_4(s.subrange(0, 4));
    lemma_le_value_4(s.subrange(4, 8));
    lemma_le_value_concat(s.subrange(0, 4), s.subrange(4, 8));
    assert(s =~= s.subrange(0, 4) + s.subrange(4, 8));
}

/// `le_value` of a concatenation: the second part counts from where the first ends. Stated for a
/// first part of four bytes, which is what the eight-byte case needs.
pub proof fn lemma_le_value_concat(a: Seq<u8>, b: Seq<u8>)
    requires
        a.len() == 4,
    ensures
        le_value(a + b) == le_value(a) + 0x1_0000_0000 * le_value(b),
{
    reveal_with_fuel(le_value, 5);
    let s = a + b;
    let s1 = s.drop_first();
    let s2 = s1.drop_first();
    let s3 = s2.drop_first();
    let s4 = s3.drop_first();
    assert(s4 =~= b);
    let a1 = a.drop_first();
    let a2 = a1.drop_first();
    let a3 = a2.drop_first();
    assert(s[0] == a[0] && s1[0] == a1[0] && s2[0] == a2[0] && s3[0] == a3[0]);
}

/// Reads a 16-bit little-endian word at `at`, if the two bytes are there.
pub fn read_u16(bytes: &[u8], at: usize) -> (r: Option<u16>)
    ensures
        r.is_some() == (at + 2 <= bytes@.len()),
        r matches Some(v) ==> v == le_value(bytes@.subrange(at as int, at + 2)),
{
    if bytes.len() < 2 || at > bytes.len() - 2 {
        return None;
    }
    proof {
        lemma_le_value_2(bytes@.subrange(at as int, at + 2));
    }
    Some(bytes[at] as u16 + 0x100 * (bytes[at + 1] as u16))
}

/// Reads a 32-bit little-endian word at `at`, if the four bytes are there.
pub fn read_u32(bytes: &[u8], at: usize) -> (r: Option<u32>)
    ensures
        r.is_some() == (at + 4 <= bytes@.len()),
        r matches Some(v) ==> v == le_value(bytes@.subrange(at as int, at + 4)),
{
    if bytes.len() < 4 || at > bytes.len() - 4 {
        return None;
    }
    proof {
        lemma_le_value_4(bytes@.subrange(at as int, at + 4));
    }
    Some(
        bytes[at] as u32 + 0x100 * (bytes[at + 1] as u32) + 0x1_0000 * (bytes[at + 2] as u32)
            + 0x100_0000 * (bytes[at + 3] as u32),
    )
}

/// Reads a 64-bit little-endian word at `at`, if the eight bytes are there.
pub fn read_u64(bytes: &[u8], at: usize) -> (r: Option<u64>)
    ensures
        r.is_some() == (at + 8 <= bytes@.len()),
        r matches Some(v) ==> v == le_value(bytes@.subrange(at as int, at + 8)),
{
    if bytes.len() < 8 || at > bytes.len() - 8 {
        return None;
    }
    proof {
        lemma_le_value_8(bytes@.subrange(at as int, at + 8));
    }
    Some(
        bytes[at] as u64 + 0x100 * (bytes[at + 1] as u64) + 0x1_0000 * (bytes[at + 2] as u64)
            + 0x100_0000 * (bytes[at + 3] as u64) + 0x1_0000_0000 * (bytes[at + 4] as u64)
            + 0x100_0000_0000 * (bytes[at + 5] as u64) + 0x1_0000_0000_0000 * (bytes[at
            + 6] as u64) + 0x100_0000_0000_0000 * (bytes[at + 7] as u64),
    )
}

/// The 16-bit little-endian word at `at`, where the two bytes are there.
pub fn u16_at(bytes: &[u8], at: usize) -> (v: u16)
    requires
        at + 2 <= bytes@.len(),
    ensures
        v == le_value(bytes@.subrange(at as int, at + 2)),
{
    proof {
        lemma_le_value_2(bytes@.subrange(at as int, at + 2));
    }
    bytes[at] as u16 + 0x100 * (bytes[at + 1] as u16)
}

/// The 32-bit little-endian word at `at`, where the four bytes are there.
pub fn u32_at(bytes: &[u8], at: usize) -> (v: u32)
    requires
        at + 4 <= bytes@.len(),
    ensures
        v == le_value(bytes@.subrange(at as int, at + 4)),
{
    proof {
        lemma_le_value_4(bytes@.subrange(at as int, at + 4));
    }
    bytes[at] as u32 + 0x100 * (bytes[at + 1] as u32) + 0x1_0000 * (bytes[at + 2] as u32)
        + 0x100_0000 * (bytes[at + 3] as u32)
}

/// The 64-bit little-endian word at `at`, where the eight bytes are there.
pub fn u64_at(bytes: &[u8], at: usize) -> (v: u64)
    requires
        at + 8 <= bytes@.len(),
    ensures
        v == le_value(bytes@.subrange(at as int, at + 8)),
{
    proof {
        lemma_le_value_8(bytes@.subrange(at as int, at + 8));
    }
    bytes[at] as u64 + 0x100 * (bytes[at + 1] as u64) + 0x1_0000 * (bytes[at + 2] as u64)
        + 0x100_0000 * (bytes[at + 3] as u64) + 0x1_0000_0000 * (bytes[at + 4] as u64)
        + 0x100_0000_0000 * (bytes[at + 5] as u64) + 0x1_0000_0000_0000 * (bytes[at + 6] as u64)
        + 0x100_0000_0000_0000 * (bytes[at + 7] as u64)
}

/// The signed reading of a 64-bit word.
pub fn to_i64(u: u64) -> (r: i64)
    ensures
        r == signed64(u as nat),
{
    if u >= 0x8000_0000_0000_0000 {
        let low: u64 = u - 0x8000_0000_0000_0000;
        (low as i64) + i64::MIN
    } else {
        u as i64
    }
}

/// The signed reading of a 32-bit word.
pub fn to_i32(u: u32) -> (r: i32)
    ensures
        r == signed32(u as nat),
{
    if u >= 0x8000_0000 {
        let low: u32 = u - 0x8000_0000;
        (low as i32) + i32::MIN
    } else {
        u as i32
    }
}

/// Whether two byte strings hold the same bytes.
pub fn bytes_eq(a: &[u8], b: &[u8]) -> (r: bool)
    ensures
        r == (a@ == b@),
{
    if a.len() != b.len() {
        return false;
    }
    let mut i: usize = 0;
    while i < a.len()
        invariant
            i <= a@.len(),
            a@.len() == b@.len(),
            forall|k: int| 0 <= k < i ==> a@[k] == b@[k],
        decreases a@.len() - i,
    {
        if a[i] != b[i] {
            return false;
        }
        i = i + 1;
    }
    assert(a@ =~= b@);
    true
}

/// Whether `prefix` is a prefix of `s`.
pub open spec fn is_prefix(prefix: Seq<u8>, s: Seq<u8>) -> bool {
    prefix.len() <= s.len() && s.subrange(0, prefix.len() as int) == prefix
}

/// Whether `s` starts with `prefix`.
pub fn starts_with(s: &[u8], prefix: &[u8]) -> (r: bool)
    ensures
        r == is_prefix(prefix@, s@),
{
    if prefix.len() > s.len() {
        return false;
    }
    bytes_eq(slice_subrange(s, 0, prefix.len()), prefix)
}

/// Whether `suffix` is a suffix of `s`.
pub open spec fn is_suffix(suffix: Seq<u8>, s: Seq<u8>) -> bool {
    suffix.len() <= s.len() && s.subrange(s.len() - suffix.len(), s.len() as int) == suffix
}

/// Whether `s` ends with `suffix`.
pub fn ends_with(s: &[u8], suffix: &[u8]) -> (r: bool)
    ensures
        r == is_suffix(suffix@, s@),
{
    if suffix.len() > s.len() {
        return false;
    }
    bytes_eq(slice_subrange(s, s.len() - suffix.len(), s.len()), suffix)
}

/// A copy of `s`.
pub fn to_vec(s: &[u8]) -> (v: Vec<u8>)
    ensures
        v@ == s@,
{
    let mut v: Vec<u8> = Vec::new();
    let mut i: usize = 0;
    while i < s.len()
        invariant
            i <= s@.len(),
            v@ == s@.subrange(0, i as int),
        decreases s@.len() - i,
    {
        v.push(s[i]);
        assert(v@ =~= s@.subrange(0, i + 1));
        i = i + 1;
    }
    assert(v@ =~= s@);
    v
}

// ———————————————————————————————— Integers ———————————————————————————————— //
/// An integer type that can be read from little-endian bytes.
pub trait Integer: Sized {
    /// How many bytes a value takes.
    spec fn spec_size() -> nat;

    /// The value that `s` writes, for an `s` of `spec_size()` bytes.
    spec fn spec_from_le(s: Seq<u8>) -> Self;

    fn size() -> (n: usize)
        ensures
            n == Self::spec_size(),
    ;

    /// Reads a value off the front of `bytes` and returns it with what follows it, or `None`
    /// where `bytes` is too short.
    fn from_bytes(bytes: &[u8]) -> (r: Option<(Self, &[u8])>)
        ensures
            r.is_some() == (Self::spec_size() <= bytes@.len()),
            r matches Some((v, rest)) ==> {
                &&& v == Self::spec_from_le(bytes@.subrange(0, Self::spec_size() as int))
                &&& rest@ == bytes@.subrange(Self::spec_size() as int, bytes@.len() as int)
            },
    ;
}

impl Integer for u8 {
    open spec fn spec_size() -> nat {
        1
    }

    open spec fn spec_from_le(s: Seq<u8>) -> u8 {
        le_value(s) as u8
    }

    fn size() -> (n: usize) {
        1
    }

    fn from_bytes(bytes: &[u8]) -> (r: Option<(u8, &[u8])>) {
        if bytes.len() < 1 {
            return None;
        }
        proof {
            lemma_le_value_1(bytes@.subrange(0, 1));
        }
        Some((bytes[0], slice_subrange(bytes, 1, bytes.len())))
    }
}

impl Integer for u16 {
    open spec fn spec_size() -> nat {
        2
    }

    open spec fn spec_from_le(s: Seq<u8>) -> u16 {
        le_value(s) as u16
    }

    fn size() -> (n: usize) {
        2
    }

    fn from_bytes(bytes: &[u8]) -> (r: Option<(u16, &[u8])>) {
        match read_u16(bytes, 0) {
            Some(v) => Some((v, slice_subrange(bytes, 2, bytes.len()))),
            None => None,
        }
    }
}

impl Integer for u32 {
    open spec fn spec_size() -> nat {
        4
    }

    open spec fn spec_from_le(s: Seq<u8>) -> u32 {
        le_value(s) as u32
    }

    fn size() -> (n: usize) {
        4
    }

    fn from_bytes(bytes: &[u8]) -> (r: Option<(u32, &[u8])>) {
        match read_u32(bytes, 0) {
            Some(v) => Some((v, slice_subrange(bytes, 4, bytes.len()))),
            None => None,
        }
    }
}

impl Integer for u64 {
    open spec fn spec_size() -> nat {
        8
    }

    open spec fn spec_from_le(s: Seq<u8>) -> u64 {
        le_value(s) as u64
    }

    fn size() -> (n: usize) {
        8
    }

    fn from_bytes(bytes: &[u8]) -> (r: Option<(u64, &[u8])>) {
        match read_u64(bytes, 0) {
            Some(v) => Some((v, slice_subrange(bytes, 8, bytes.len()))),
            None => None,
        }
    }
}

impl Integer for i8 {
    open spec fn spec_size() -> nat {
        1
    }

    open spec fn spec_from_le(s: Seq<u8>) -> i8 {
        (if le_value(s) >= 0x80 {
            le_value(s) - 0x100
        } else {
            le_value(s) as int
        }) as i8
    }

    fn size() -> (n: usize) {
        1
    }

    fn from_bytes(bytes: &[u8]) -> (r: Option<(i8, &[u8])>) {
        if bytes.len() < 1 {
            return None;
        }
        proof {
            lemma_le_value_1(bytes@.subrange(0, 1));
        }
        let b = bytes[0];
        let v: i8 = if b >= 0x80 {
            ((b - 0x80) as i8) + i8::MIN
        } else {
            b as i8
        };
        Some((v, slice_subrange(bytes, 1, bytes.len())))
    }
}

impl Integer for i16 {
    open spec fn spec_size() -> nat {
        2
    }

    open spec fn spec_from_le(s: Seq<u8>) -> i16 {
        (if le_value(s) >= 0x8000 {
            le_value(s) - 0x1_0000
        } else {
            le_value(s) as int
        }) as i16
    }

    fn size() -> (n: usize) {
        2
    }

    fn from_bytes(bytes: &[u8]) -> (r: Option<(i16, &[u8])>) {
        match read_u16(bytes, 0) {
            Some(u) => {
                let v: i16 = if u >= 0x8000 {
                    ((u - 0x8000) as i16) + i16::MIN
                } else {
                    u as i16
                };
                Some((v, slice_subrange(bytes, 2, bytes.len())))
            },
            None => None,
        }
    }
}

impl Integer for i32 {
    open spec fn spec_size() -> nat {
        4
    }

    open spec fn spec_from_le(s: Seq<u8>) -> i32 {
        signed32(le_value(s)) as i32
    }

    fn size() -> (n: usize) {
        4
    }

    fn from_bytes(bytes: &[u8]) -> (r: Option<(i32, &[u8])>) {
        match read_u32(bytes, 0) {
            Some(v) => Some((to_i32(v), slice_subrange(bytes, 4, bytes.len()))),
            None => None,
        }
    }
}

impl Integer for i64 {
    open spec fn spec_size() -> nat {
        8
    }

    open spec fn spec_from_le(s: Seq<u8>) -> i64 {
        signed64(le_value(s)) as i64
    }

    fn size() -> (n: usize) {
        8
    }

    fn from_bytes(bytes: &[u8]) -> (r: Option<(i64, &[u8])>) {
        match read_u64(bytes, 0) {
            Some(v) => Some((to_i64(v), slice_subrange(bytes, 8, bytes.len()))),
            None => None,
        }
    }
}

/// A cursor over bytes from which integers are read one after the other.
pub struct BytesIter<'a> {
    pub bytes: &'a [u8],
}

impl<'a> BytesIter<'a> {
    /// Reads the next `T`, moving past it, or returns `None` and stays where too few bytes are
    /// left.
    pub fn read<T: Integer>(&mut self) -> (r: Option<T>)
        ensures
            r.is_some() == (T::spec_size() <= old(self).bytes@.len()),
            r matches Some(v) ==> {
                &&& v == T::spec_from_le(old(self).bytes@.subrange(0, T::spec_size() as int))
                &&& final(self).bytes@ == old(self).bytes@.subrange(
                    T::spec_size() as int,
                    old(self).bytes@.len() as int,
                )
            },
            r.is_none() ==> final(self).bytes@ == old(self).bytes@,
    {
        let bytes: &'a [u8] = self.bytes;
        match T::from_bytes(bytes) {
            Some((value, rest)) => {
                self.bytes = rest;
                Some(value)
            },
            None => None,
        }
    }

    /// The next byte, as `read::<u8>`.
    pub fn next(&mut self) -> (r: Option<u8>)
        ensures
            r.is_some() == (old(self).bytes@.len() >= 1),
            r matches Some(v) ==> v == old(self).bytes@[0] && final(self).bytes@ == old(
                self,
            ).bytes@.drop_first(),
            r.is_none() ==> final(self).bytes@ == old(self).bytes@,
    {
        let r = self.read::<u8>();
        proof {
            if old(self).bytes@.len() >= 1 {
                lemma_le_value_1(old(self).bytes@.subrange(0, 1));
            }
        }
        r
    }
}

} // verus!
