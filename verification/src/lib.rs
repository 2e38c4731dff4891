use vstd::prelude::*;

pub mod cmake;
pub mod outside;
pub mod phases;
pub mod tidy;

verus! {

/// The subcommands the driver accepts.
pub enum Commands {
    Cmake(cmake::CmakeVars),
}

/// Expands a parsed subcommand into the effective phase set it asks for.
pub fn run(cmds: &Commands) -> (r: phases::EffectivePhaseSet)
    ensures
        *cmds matches Commands::Cmake(v) ==> r == cmake::spec_resolve(v),
{
    match cmds {
        Commands::Cmake(v) => cmake::resolve(v),
    }
}

} // verus!
