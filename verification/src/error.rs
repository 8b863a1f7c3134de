//! What can go wrong while the objects of a program are read and linked.

use vstd::prelude::*;

verus! {

/// Errors of the core: a file that is no ELF object, or a table of it that does not hold what
/// was asked of it.
#[derive(Debug, Clone, PartialEq, Eq)]
pub enum FoldError {
    /// The file does not start with the four bytes `0x7F 'E' 'L' 'F'`.
    InvalidMagic,
    /// The file's ELF version is not 1.
    InvalidVersion,
    /// A section was taken for a kind of table that its tag does not announce.
    InvalidSectionCast { expected: u32, actual: u32 },
    /// A section's `link` designates no section of its object.
    MissingLinkedSection,
    /// No loaded object defines the symbol of this name.
    SymbolNotFound(Vec<u8>),
    /// An index or an offset lies outside the table or the file it is used with.
    OutOfBounds,
    /// No NUL byte ends a string of a string table.
    InvalidString,
    /// A table announces entries of another size than its records have.
    InvalidEntrySize { wanted: usize, found: usize },
}

/// Errors of the System V modules.
#[derive(Debug, Clone, PartialEq, Eq)]
pub enum SysvError {
    /// An error of the core.
    FoldError(FoldError),
    /// None of the search paths holds a file of this name.
    DependencyNotFound(Vec<u8>),
    /// Relocations were asked for an object that was given no base address.
    RelaSectionWithoutVirtualAdresses,
    /// A relocation of a type that the relocator does not know.
    UnknownRelocation(u32),
    /// A module found no value under the key of this name.
    MissingSharedMapEntry(&'static str),
    /// The operating system refused to map memory; the number is its error code.
    MappingFailed(i32),
    /// The operating system refused to protect memory; the number is its error code.
    ProtectFailed(i32),
    /// Anything else.
    Other,
}

impl SysvError {
    /// Wraps an error of the core.
    pub fn from_fold(value: FoldError) -> (e: SysvError)
        ensures
            e == SysvError::FoldError(value),
    {
        SysvError::FoldError(value)
    }
}

/// Errors of the thread-local storage modules.
#[derive(Debug, Clone, PartialEq, Eq)]
pub enum TlsError {
    /// The operating system refused a request; the number is its error code.
    Linux(i32),
    /// A module id outside the modules that were collected.
    InvalidModuleId(usize),
    /// A module found no value under the key of this name.
    MissingSharedMapEntry(&'static str),
    /// The thread-local storage of the program does not fit the address space, or a module
    /// does not fit the place that its offset gives it.
    TooLarge,
    /// An error of the core.
    Fold(FoldError),
}

} // verus!
