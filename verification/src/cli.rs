//! # Command Line Interface

use crate::bytes::ends_with;
use crate::bytes::is_suffix;
use crate::env::{Env, EnvString};
use vstd::prelude::*;

verus! {

/// Execution context of the linker.
#[derive(Debug)]
pub struct Config {
    /// Path of the executable to link.
    pub target: Vec<u8>,
    /// Execution context.
    pub env: Env,
}

/// Which of the arguments names the program to link, for a loader of name `loader_name`.
///
/// Where the first argument does not end with the loader's name, the kernel started the
/// loader for the program, and the first argument is the program. Else the loader was called by
/// its name, and the program is the second argument, if there is one.
pub open spec fn spec_find_target(args: Seq<EnvString>, loader_name: Seq<u8>) -> Option<int> {
    if args.len() == 0 {
        None
    } else if !is_suffix(loader_name, args[0].bytes@) {
        Some(0)
    } else if args.len() > 1 {
        Some(1)
    } else {
        None
    }
}

/// Find the program to link: the position of its path among the arguments.
pub fn find_target(args: &[EnvString], loader_name: &[u8]) -> (r: Option<usize>)
    ensures
        r.is_some() == spec_find_target(args@, loader_name@).is_some(),
        r matches Some(i) ==> spec_find_target(args@, loader_name@) == Some(i as int) && i
            < args@.len(),
{
    if args.len() == 0 {
        return None;
    }
    // If arg 0 is not self, then it is the target
    if !ends_with(args[0].bytes.as_slice(), loader_name) {
        return Some(0);
    }
    // Otherwise, we are invoked directly, search for the target
    if args.len() > 1 {
        Some(1)
    } else {
        None
    }
}

/// The text that tells how the loader is called.
pub fn usage() -> (text: &'static str)
    ensures
        text == "Spidl Dynamic Loader\n\nUsage: spidl <target> [args]\n",
{
    "Spidl Dynamic Loader\n\nUsage: spidl <target> [args]\n"
}

/// Parse command line arguments: `None` where they name no program to link.
pub fn parse(env: Env, loader_name: &[u8]) -> (r: Option<Config>)
    ensures
        match spec_find_target(env.args@, loader_name@) {
            None => r.is_none(),
            Some(i) => r matches Some(config) && config.target@ == env.args@[i].bytes@
                && config.env == env,
        },
{
    match find_target(env.args.as_slice(), loader_name) {
        None => None,
        Some(i) => {
            let target = crate::bytes::to_vec(env.args[i].bytes.as_slice());
            Some(Config { target, env })
        },
    }
}

} // verus!
