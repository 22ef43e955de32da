//! The command-line surface as plain data: which subcommand was chosen and
//! with which switches.  Parsing the actual argument list is the surrounding
//! program's business; the library only consumes these values.

use vstd::prelude::*;

verus! {

/// A parsed invocation: the chosen subcommand.
#[derive(Debug, Clone)]
pub struct Cli {
    pub command: Commands,
}

/// The tool's subcommands.
#[derive(Debug, Clone)]
pub enum Commands {
    Build(Build),
    Run(Run),
    MemoryRun(Run),
    Test(Test),
    MemoryTest(Test),
    Init(Init),
    Clean,
}

/// Switches of the build subcommand.
#[derive(Debug, Clone)]
pub struct Build {
    pub release: bool,
    pub benchmark: bool,
    pub assembly: bool,
}

/// Switches of the run subcommands.
#[derive(Debug, Clone)]
pub struct Run {
    pub release: bool,
    pub benchmark: bool,
}

/// Switches of the test subcommands.
#[derive(Debug, Clone)]
pub struct Test {
    pub release: bool,
    pub single: Option<String>,
}

/// The initialize subcommand's target directory.
#[derive(Debug, Clone)]
pub struct Init {
    pub path: String,
}

} // verus!
