//! Hands control to the program.

use crate::arena::Handle;
use crate::elf::{ElfHeader, ElfItem};
use crate::env::{Env, EnvString};
use crate::manifold::Manifold;
use crate::object::Object;
use crate::sysv::loader::{base_of, spec_base_of};
use crate::sysv::relocation::{sum64, wrap64};
use vstd::prelude::*;

verus! {

/// Starter of the program.
#[derive(Debug)]
pub struct SysvStart {}

/// The addresses of the strings of `strings`.
pub open spec fn addresses(strings: Seq<EnvString>) -> Seq<u64> {
    strings.map_values(|s: EnvString| s.addr as u64)
}

/// The stack of a program that starts: the number of arguments, the addresses of the
/// arguments, a null word, the addresses of the environment variables, a null word. The
/// auxiliary vector is not handed on.
pub open spec fn spec_stack(env: &Env) -> Seq<u64> {
    seq![env.args@.len() as u64] + addresses(env.args@) + seq![0u64] + addresses(env.envp@)
        + seq![0u64]
}

/// Builds the stack of a program that starts in the context `env`.
pub fn build_stack(env: &Env) -> (stack: Vec<u64>)
    ensures
        stack@ == spec_stack(env),
        stack@.len() == env.args@.len() + env.envp@.len() + 3,
{
    let mut stack: Vec<u64> = Vec::new();
    let null: u64 = 0;
    // Args
    stack.push(env.args.len() as u64);
    let mut i: usize = 0;
    while i < env.args.len()
        invariant
            i <= env.args@.len(),
            stack@ == seq![env.args@.len() as u64] + addresses(env.args@).subrange(0, i as int),
        decreases env.args@.len() - i,
    {
        stack.push(env.args[i].addr as u64);
        assert(stack@ =~= seq![env.args@.len() as u64] + addresses(env.args@).subrange(0, i + 1));
        i = i + 1;
    }
    assert(addresses(env.args@).subrange(0, i as int) =~= addresses(env.args@));
    stack.push(null);
    // Env
    let ghost head = stack@;
    let mut i: usize = 0;
    assert(stack@ =~= head + addresses(env.envp@).subrange(0, 0));
    while i < env.envp.len()
        invariant
            i <= env.envp@.len(),
            head == seq![env.args@.len() as u64] + addresses(env.args@) + seq![0u64],
            stack@ == head + addresses(env.envp@).subrange(0, i as int),
        decreases env.envp@.len() - i,
    {
        stack.push(env.envp[i].addr as u64);
        assert(stack@ =~= head + addresses(env.envp@).subrange(0, i + 1));
        i = i + 1;
    }
    assert(addresses(env.envp@).subrange(0, i as int) =~= addresses(env.envp@));
    stack.push(null);
    stack
}

/// How the program is started: the address to jump to, and the stack to jump with.
#[derive(Debug)]
pub struct StartPlan {
    pub entry: u64,
    pub stack: Vec<u64>,
}

impl SysvStart {
    pub fn new() -> Self {
        Self {  }
    }

    /// Name of the module.
    pub fn name(&self) -> (n: &'static str)
        ensures
            n == "sysv-start",
    {
        "sysv-start"
    }

    /// The address at which the object `obj` is entered: the entry point of its header plus
    /// its base, or the entry point itself where it has no base.
    pub open spec fn spec_entry(obj: &Object) -> u64 {
        wrap64(
            ElfHeader::decode_at(obj.mapping@, 0).e_entry + match spec_base_of(obj) {
                Some(b) => b,
                None => 0,
            },
        )
    }

    /// How the object `obj`, whose file must hold a header, is started.
    pub fn plan(&self, obj: Handle<Object>, manifold: &Manifold) -> (p: StartPlan)
        requires
            manifold.wf(),
            manifold.objects.contains(obj),
        ensures
            p.entry == Self::spec_entry(&manifold.objects@[obj.index() as int]),
            p.stack@ == spec_stack(&manifold.env),
    {
        assert(manifold.object_consistent(obj.index() as int));
        let object = manifold.objects.index(obj);
        let offset = match base_of(object) {
            Some(b) => b,
            None => 0,
        };
        let entry = sum64(object.header().e_entry, offset as u64);
        StartPlan { entry, stack: build_stack(&manifold.env) }
    }
}

} // verus!
