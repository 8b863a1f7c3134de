//! The execution context that the kernel hands to a process.

use vstd::prelude::*;

verus! {

/// Type of an auxiliary vector ([`Auxv`]) entry.
#[derive(Clone, Copy, Debug, PartialEq, Eq, Structural)]
pub struct AuxvType(pub u64);

/// Marks end of auxiliary vector list.
pub const AT_NULL: u64 = 0;

/// Address of the first program header in memory.
pub const AT_PHDR: u64 = 3;

/// Number of program headers.
pub const AT_PHNUM: u64 = 5;

/// Address where the interpreter (dynamic loader) is mapped.
pub const AT_BASE: u64 = 7;

/// Entry point of program.
pub const AT_ENTRY: u64 = 9;

impl AuxvType {
    /// The name of the type, or `<unknown>` for a type without a name here.
    pub fn name(&self) -> (s: &'static str)
        ensures
            s == match self.0 {
                0 => "NULL",
                3 => "PHDR",
                5 => "PHNUM",
                7 => "BASE",
                9 => "ENTRY",
                _ => "<unknown>",
            },
    {
        match self.0 {
            0 => "NULL",
            3 => "PHDR",
            5 => "PHNUM",
            7 => "BASE",
            9 => "ENTRY",
            _ => "<unknown>",
        }
    }
}

/// An entry in the auxiliary vector, by which the operating system tells the program about the
/// context it runs in.
#[derive(Clone, Copy, Debug, PartialEq, Eq, Structural)]
pub struct Auxv {
    /// Type of the entry.
    pub typ: AuxvType,
    /// Value of the entry.
    pub value: u64,
}

/// A NUL-terminated string of the process: where it lies in memory, and its bytes without the
/// NUL.
#[derive(Debug)]
pub struct EnvString {
    pub addr: usize,
    pub bytes: Vec<u8>,
}

/// Stores the environment of the process.
#[derive(Debug)]
pub struct Env {
    /// CLI arguments given to the process.
    pub args: Vec<EnvString>,
    /// List of environment variables of the process, stored in `key=value` format.
    pub envp: Vec<EnvString>,
    /// Auxiliary vector, without the entry of type `NULL` that ends it.
    pub auxv: Vec<Auxv>,
    /// Address of the start of the null-terminated argument array.
    pub raw_argv: usize,
    /// Address of the start of the null-terminated environment variable array.
    pub raw_envp: usize,
}

/// The entries of `raw` that come before the first entry of type `NULL`.
pub open spec fn auxv_until_null(raw: Seq<Auxv>) -> Seq<Auxv>
    decreases raw.len(),
{
    if raw.len() == 0 || raw[0].typ.0 == AT_NULL {
        Seq::empty()
    } else {
        seq![raw[0]] + auxv_until_null(raw.drop_first())
    }
}

impl Env {
    /// Builds the environment from what was read at the addresses that the kernel gave.
    ///
    /// - `args`, `envp`: the strings of the two arrays, each with its address.
    /// - `auxv`: the entries that follow the environment array; those from the first entry of
    ///   type `NULL` on are dropped.
    /// - `raw_argv`, `raw_envp`: addresses of the argument array and of the environment array.
    pub fn from_parts(
        args: Vec<EnvString>,
        envp: Vec<EnvString>,
        auxv: &[Auxv],
        raw_argv: usize,
        raw_envp: usize,
    ) -> (env: Env)
        ensures
            env.args == args,
            env.envp == envp,
            env.auxv@ == auxv_until_null(auxv@),
            env.raw_argv == raw_argv,
            env.raw_envp == raw_envp,
    {
        let mut kept: Vec<Auxv> = Vec::new();
        let mut i: usize = 0;
        assert(auxv@.subrange(0, auxv@.len() as int) =~= auxv@);
        assert(kept@ + auxv_until_null(auxv@) =~= auxv_until_null(auxv@));
        while i < auxv.len() && auxv[i].typ.0 != AT_NULL
            invariant
                i <= auxv@.len(),
                auxv_until_null(auxv@) == kept@ + auxv_until_null(
                    auxv@.subrange(i as int, auxv@.len() as int),
                ),
            decreases auxv@.len() - i,
        {
            let ghost rest = auxv@.subrange(i as int, auxv@.len() as int);
            assert(rest[0] == auxv@[i as int]);
            assert(rest.drop_first() =~= auxv@.subrange(i + 1, auxv@.len() as int));
            kept.push(auxv[i]);
            assert(kept@ + auxv_until_null(rest.drop_first()) =~= kept@.drop_last() + (seq![
                rest[0],
            ] + auxv_until_null(rest.drop_first())));
            i = i + 1;
        }
        proof {
            let rest = auxv@.subrange(i as int, auxv@.len() as int);
            if i < auxv@.len() {
                assert(rest[0] == auxv@[i as int]);
            }
            assert(auxv_until_null(rest) =~= Seq::<Auxv>::empty());
            assert(kept@ + Seq::<Auxv>::empty() =~= kept@);
            assert(auxv@.subrange(0, auxv@.len() as int) =~= auxv@);
        }
        Env { args, envp, auxv: kept, raw_argv, raw_envp }
    }
}

} // verus!
