//! The pure parts of project initialization: deriving the project's name
//! from its directory and composing the configuration file's text.  Creating
//! directories and writing files stay outside the library.

use vstd::prelude::*;
use vstd::string::*;

use crate::paths::{bare_name, spec_bare_name};

verus! {

/// The name a new project gets: the last path segment of its directory.
pub fn project_name(path: &str) -> (r: String)
    ensures
        r@ == spec_bare_name(path@),
{
    bare_name(path)
}

/// The text before the project name in a fresh configuration file.
pub open spec fn spec_toml_head() -> Seq<char> {
    "[package]\nname = \""@
}

/// The text after the project name in a fresh configuration file: default
/// debug and release profiles and memory-checker settings.
pub open spec fn spec_toml_tail() -> Seq<char> {
    "\"\nversion = \"0.1.0\"\nauthors = [\"Your Name\"]\nsrc = \"src\"\n\n[debug]\npath = \"c_target/debug/\"\ndebug = true\noptimization = 0\nwarnings = true\npedantic = true\nstd = \"c2x\"\n\n[release]\npath = \"c_target/release/\"\ndebug = false\noptimization = 3\nwarnings = true\npedantic = false\nstd = \"c2x\"\n\n[memory]\nleak_check = \"full\"\nshow_leak_kinds = \"all\"\ntrack_origins = true\n"@
}

/// A fresh configuration file's whole text for a project of the given name.
pub open spec fn spec_toml_contents(name: Seq<char>) -> Seq<char> {
    spec_toml_head() + name + spec_toml_tail()
}

/// Composes the configuration file written for a new project.
pub fn toml_contents(name: &str) -> (r: String)
    ensures
        r@ == spec_toml_contents(name@),
{
    let mut s = String::from_str("[package]\nname = \"");
    s.append(name);
    s.append(
        "\"\nversion = \"0.1.0\"\nauthors = [\"Your Name\"]\nsrc = \"src\"\n\n[debug]\npath = \"c_target/debug/\"\ndebug = true\noptimization = 0\nwarnings = true\npedantic = true\nstd = \"c2x\"\n\n[release]\npath = \"c_target/release/\"\ndebug = false\noptimization = 3\nwarnings = true\npedantic = false\nstd = \"c2x\"\n\n[memory]\nleak_check = \"full\"\nshow_leak_kinds = \"all\"\ntrack_origins = true\n",
    );
    s
}

} // verus!
