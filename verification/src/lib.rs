//! A dynamic linker for ELF64 executables of the System V ABI on x86-64, built as a pipeline of
//! modules over a shared representation of the program.
//!
//! The [`Manifold`] holds every object of the program with its segments and sections, and the
//! memory that modules share. A [`Fold`] is an ordered list of phases, each a [`Module`] with a
//! [`Filter`] that selects the items of the manifold that the module is applied to. The modules
//! under [`sysv`] collect the libraries that a program needs, load the segments, relocate, set
//! up thread-local storage, protect the memory and start the program.
//!
//! The library decides; it does not act. Whatever must be asked of the operating system comes
//! out as a plan or as a list of actions for the caller to carry out: what to map and where,
//! what to write at which address, which protection to ask for, where to jump.

pub mod arena;
pub mod bytes;
pub mod cli;
pub mod driver;
pub mod elf;
pub mod env;
pub mod error;
pub mod exit;
pub mod file;
pub mod filters;
pub mod manifold;
pub mod module;
pub mod musl;
pub mod object;
pub mod search;
pub mod share_map;
pub mod sysv;

pub use arena::{Arena, Handle};
pub use cli::Config;
pub use driver::Fold;
pub use env::Env;
pub use error::FoldError;
pub use exit::Exit;
pub use filters::Filter;
pub use manifold::Manifold;
pub use module::Module;
pub use object::{Object, Section, Segment};
pub use share_map::{ShareMap, ShareMapKey};
