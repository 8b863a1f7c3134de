//! Modules: the steps of the linker's execution.

use crate::arena::Handle;
use crate::error::{FoldError, SysvError, TlsError};
use crate::manifold::Manifold;
use crate::object::{Object, Section, Segment};
use vstd::prelude::*;

verus! {

/// Why a module gave up.
#[derive(Debug, Clone, PartialEq, Eq)]
pub enum ModuleError {
    /// An error of the core.
    Fold(FoldError),
    /// An error of a System V module.
    Sysv(SysvError),
    /// An error of a module of thread-local storage.
    Tls(TlsError),
    /// Any other error, with a description.
    Other(String),
}

/// Whether `after` holds everything that `before` held: no object, segment or section was
/// removed. The arenas of a manifold only grow.
pub open spec fn grown(before: &Manifold, after: &Manifold) -> bool {
    &&& before.objects@.len() <= after.objects@.len()
    &&& before.segments@.len() <= after.segments@.len()
    &&& before.sections@.len() <= after.sections@.len()
}

/// A step of the linker's execution.
///
/// A module is applied to the manifold's elements that the filter it was registered with
/// matches. All hooks but `name` have default implementations that do nothing, so that a module
/// implements the hooks of the elements it is about. A module keeps its state from one call to
/// the next.
///
/// Every hook is handed a well-formed manifold and must leave a well-formed manifold from
/// which nothing was removed.
pub trait Module: Sized {
    /// Returns a name to display for the module. Used for logging and debugging.
    fn name(&self) -> &'static str;

    /// Processes an object of the manifold. `obj` designates an object of `manifold`.
    /// Unless a module says otherwise, the hook succeeds and changes neither the module nor
    /// the manifold.
    fn process_object(&mut self, obj: Handle<Object>, manifold: &mut Manifold) -> (r: Result<(), ModuleError>)
        requires
            old(manifold).wf(),
            old(manifold).objects.contains(obj),
        ensures
            final(manifold).wf(),
            grown(old(manifold), final(manifold)),
        default_ensures
            r is Ok,
            *final(manifold) == *old(manifold),
            *final(self) == *old(self),
    {
        Ok(())
    }

    /// Processes a segment of the manifold. `segment` designates a segment of `manifold`.
    /// Unless a module says otherwise, the hook succeeds and changes neither the module nor
    /// the manifold.
    fn process_segment(&mut self, segment: Handle<Segment>, manifold: &mut Manifold) -> (r: Result<(), ModuleError>)
        requires
            old(manifold).wf(),
            old(manifold).segments.contains(segment),
        ensures
            final(manifold).wf(),
            grown(old(manifold), final(manifold)),
        default_ensures
            r is Ok,
            *final(manifold) == *old(manifold),
            *final(self) == *old(self),
    {
        Ok(())
    }

    /// Processes a section of the manifold. `section` designates a section of `manifold`.
    /// Unless a module says otherwise, the hook succeeds and changes neither the module nor
    /// the manifold.
    fn process_section(&mut self, section: Handle<Section>, manifold: &mut Manifold) -> (r: Result<(), ModuleError>)
        requires
            old(manifold).wf(),
            old(manifold).sections.contains(section),
        ensures
            final(manifold).wf(),
            grown(old(manifold), final(manifold)),
        default_ensures
            r is Ok,
            *final(manifold) == *old(manifold),
            *final(self) == *old(self),
    {
        Ok(())
    }

    /// Processes the whole manifold. Called at most once in a phase. Unless a module says
    /// otherwise, the hook succeeds and changes neither the module nor the manifold.
    fn process_manifold(&mut self, manifold: &mut Manifold) -> (r: Result<(), ModuleError>)
        requires
            old(manifold).wf(),
        ensures
            final(manifold).wf(),
            grown(old(manifold), final(manifold)),
        default_ensures
            r is Ok,
            *final(manifold) == *old(manifold),
            *final(self) == *old(self),
    {
        Ok(())
    }
}

} // verus!
