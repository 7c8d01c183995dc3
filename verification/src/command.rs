use vstd::prelude::*;

pub mod clear;

verus! {

/// What the command line asked for.
#[derive(Debug)]
pub struct Cli {
    pub commands: Commands,
}

/// The sub-commands.
#[derive(Debug)]
pub enum Commands {
    /// Clear the junk of the projects under a directory.
    Clear(clear::Clear),
}

} // verus!
