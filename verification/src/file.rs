//! Regions of memory: the image of a file, and memory that a segment is loaded into.

use vstd::prelude::*;

verus! {

/// A read-only memory region: the content of a file.
#[derive(Debug)]
pub struct Mapping {
    bytes: Vec<u8>,
}

impl View for Mapping {
    type V = Seq<u8>;

    closed spec fn view(&self) -> Seq<u8> {
        self.bytes@
    }
}

impl Mapping {
    /// The region that holds `bytes`.
    pub fn new(bytes: Vec<u8>) -> (m: Self)
        ensures
            m@ == bytes@,
    {
        Self { bytes }
    }

    /// Returns the mapping's slice.
    pub fn bytes(&self) -> (b: &[u8])
        ensures
            b@ == self@,
    {
        self.bytes.as_slice()
    }

    /// Number of bytes in the region.
    pub fn len(&self) -> (n: usize)
        ensures
            n == self@.len(),
    {
        self.bytes.len()
    }
}

/// A read-write memory region: where it lies in the address space, and what it holds.
#[derive(Debug)]
pub struct MappingMut {
    addr: usize,
    bytes: Vec<u8>,
}

impl View for MappingMut {
    type V = Seq<u8>;

    closed spec fn view(&self) -> Seq<u8> {
        self.bytes@
    }
}

impl MappingMut {
    /// Address of the first byte of the region.
    pub closed spec fn spec_addr(&self) -> usize {
        self.addr
    }

    /// The region at `addr` that holds `bytes`.
    pub fn new(addr: usize, bytes: Vec<u8>) -> (m: Self)
        ensures
            m@ == bytes@,
            m.spec_addr() == addr,
    {
        Self { addr, bytes }
    }

    /// Address of the first byte of the region.
    pub fn addr(&self) -> (a: usize)
        ensures
            a == self.spec_addr(),
    {
        self.addr
    }

    /// Number of bytes in the region.
    pub fn len(&self) -> (n: usize)
        ensures
            n == self@.len(),
    {
        self.bytes.len()
    }

    /// Returns the mapping's read-only slice.
    pub fn bytes(&self) -> (b: &[u8])
        ensures
            b@ == self@,
    {
        self.bytes.as_slice()
    }

    /// Returns the mapping's read-write slice. The region keeps its address and its length.
    pub fn bytes_mut(&mut self) -> (b: &mut [u8])
        ensures
            b@ == old(self)@,
            final(self)@ == final(b)@,
            final(self).spec_addr() == old(self).spec_addr(),
    {
        self.bytes.as_mut_slice()
    }

    /// A copy of the region: same address, same content.
    pub fn duplicate(&self) -> (m: Self)
        ensures
            m@ == self@,
            m.spec_addr() == self.spec_addr(),
    {
        Self { addr: self.addr, bytes: crate::bytes::to_vec(self.bytes.as_slice()) }
    }
}

} // verus!
