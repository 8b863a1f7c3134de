//! Modules to process System V ABI compliant executables.

pub mod collector;
pub mod init_array;
pub mod loader;
pub mod protect;
pub mod relocation;
pub mod start;
pub mod tls;

use crate::musl::MuslLocator;
use crate::sysv::collector::{SysvCollector, SysvRemappingCollector};
use crate::sysv::init_array::SysvInitArray;
use crate::sysv::loader::SysvLoader;
use crate::sysv::protect::SysvProtect;
use crate::sysv::relocation::SysvReloc;
use crate::sysv::start::SysvStart;
use crate::sysv::tls::allocation::TlsAllocator;
use crate::sysv::tls::collection::TlsCollector;
use crate::sysv::tls::relocation::TlsRelocator;
use crate::sysv::tls::SysvTls;
use vstd::prelude::*;

verus! {

/// The modules that come with the linker.
#[derive(Debug)]
pub enum SysvModule {
    Collector(SysvCollector),
    RemappingCollector(SysvRemappingCollector),
    Loader(SysvLoader),
    MuslLocator(MuslLocator),
    TlsCollector(TlsCollector),
    TlsAllocator(TlsAllocator),
    TlsRelocator(TlsRelocator),
    Reloc(SysvReloc),
    Protect(SysvProtect),
    InitArray(SysvInitArray),
    Tls(SysvTls),
    Start(SysvStart),
}

impl SysvModule {
    /// The name of the module, for logging and debugging.
    pub fn name(&self) -> (n: &'static str)
        ensures
            n == match self {
                SysvModule::Collector(_) => "sysv-collector",
                SysvModule::RemappingCollector(_) => "sysv-remapping-collector",
                SysvModule::Loader(_) => "sysv-loader",
                SysvModule::MuslLocator(_) => "musl-locator",
                SysvModule::TlsCollector(_) => "tls-collector",
                SysvModule::TlsAllocator(_) => "tls-allocator",
                SysvModule::TlsRelocator(_) => "tls-relocation",
                SysvModule::Reloc(_) => "sysv-reloc-lib",
                SysvModule::Protect(_) => "sysv-protect",
                SysvModule::InitArray(_) => "sysv-init-array",
                SysvModule::Tls(_) => "sysv-tls",
                SysvModule::Start(_) => "sysv-start",
            },
    {
        match self {
            SysvModule::Collector(_) => "sysv-collector",
            SysvModule::RemappingCollector(_) => "sysv-remapping-collector",
            SysvModule::Loader(_) => "sysv-loader",
            SysvModule::MuslLocator(_) => "musl-locator",
            SysvModule::TlsCollector(_) => "tls-collector",
            SysvModule::TlsAllocator(_) => "tls-allocator",
            SysvModule::TlsRelocator(_) => "tls-relocation",
            SysvModule::Reloc(_) => "sysv-reloc-lib",
            SysvModule::Protect(_) => "sysv-protect",
            SysvModule::InitArray(_) => "sysv-init-array",
            SysvModule::Tls(_) => "sysv-tls",
            SysvModule::Start(_) => "sysv-start",
        }
    }
}

/// System V dependency resolver.
#[derive(Debug)]
pub struct DepResolver {}

} // verus!
