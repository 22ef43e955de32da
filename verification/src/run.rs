//! The pure parts of running a built program: the command lines for a plain
//! run, a run under the memory checker, and the benchmark report.  Spawning
//! the processes stays outside the library.

use vstd::prelude::*;
use vstd::string::*;

use crate::compile::{get_target, spec_target, Config};

verus! {

/// The memory checker's option string: the leak-check level and the leak
/// kinds where the configuration gives them, and always whether origins are
/// tracked.
pub open spec fn spec_memory_string(c: Config) -> Seq<char> {
    (if c.memory.leak_check@.len() > 0 {
        "--leak-check="@ + c.memory.leak_check@
    } else {
        Seq::<char>::empty()
    }) + (if c.memory.show_leak_kinds@.len() > 0 {
        " --show-leak-kinds="@ + c.memory.show_leak_kinds@
    } else {
        Seq::<char>::empty()
    }) + (if c.memory.track_origins {
        " --track-origins=yes"@
    } else {
        " --track-origins=no"@
    })
}

/// Assembles the memory checker's options from the configuration.
pub fn get_memory_string(config: &Config) -> (r: String)
    ensures
        r@ == spec_memory_string(*config),
{
    let mut m = String::new();
    if !config.memory.leak_check.as_str().is_empty() {
        m.append("--leak-check=");
        m.append(config.memory.leak_check.as_str());
    }
    if !config.memory.show_leak_kinds.as_str().is_empty() {
        m.append(" --show-leak-kinds=");
        m.append(config.memory.show_leak_kinds.as_str());
    }
    if config.memory.track_origins {
        m.append(" --track-origins=yes");
    } else {
        m.append(" --track-origins=no");
    }
    proof {
        assert(m@ =~= spec_memory_string(*config));
    }
    m
}

/// The path of the program a plain run starts: the benchmark for a
/// benchmark build, else the package's program, in the target directory.
pub open spec fn spec_run_command(c: Config) -> Seq<char> {
    if c.benchmark == Some(true) {
        spec_target(c) + "/benchmark"@
    } else {
        spec_target(c) + "/"@ + c.package.name@
    }
}

/// Composes the command that runs the built program.
pub fn run_command(config: &Config) -> (r: String)
    requires
        config.mode is Some,
        config.benchmark is Some,
    ensures
        r@ == spec_run_command(*config),
{
    let mut cmd = get_target(config);
    let is_benchmark = matches!(config.benchmark, Some(true));
    if is_benchmark {
        cmd.append("/benchmark");
    } else {
        cmd.append("/");
        cmd.append(config.package.name.as_str());
    }
    proof {
        assert(cmd@ =~= spec_run_command(*config));
    }
    cmd
}

/// The command that runs the built program under the memory checker.
pub open spec fn spec_memory_run_command(c: Config) -> Seq<char> {
    "valgrind "@ + spec_memory_string(c) + " ./"@ + spec_target(c) + "/"@ + (if c.benchmark
        == Some(true) {
        "benchmark"@
    } else {
        c.package.name@
    })
}

/// Composes the memory-checked run command.
pub fn memory_run_command(config: &Config) -> (r: String)
    requires
        config.mode is Some,
        config.benchmark is Some,
    ensures
        r@ == spec_memory_run_command(*config),
{
    let mut cmd = String::from_str("valgrind ");
    let mem = get_memory_string(config);
    cmd.append(mem.as_str());
    cmd.append(" ./");
    let target = get_target(config);
    cmd.append(target.as_str());
    cmd.append("/");
    let is_benchmark = matches!(config.benchmark, Some(true));
    if is_benchmark {
        cmd.append("benchmark");
    } else {
        cmd.append(config.package.name.as_str());
    }
    proof {
        assert(cmd@ =~= spec_memory_run_command(*config));
    }
    cmd
}

/// The command that prints the benchmark profile after a benchmark run.
pub open spec fn spec_benchmark_report_command(c: Config) -> Seq<char> {
    "gprof --brief "@ + spec_target(c) + "/benchmark"@
}

/// Composes the benchmark-report command.
pub fn benchmark_report_command(config: &Config) -> (r: String)
    requires
        config.mode is Some,
        config.benchmark is Some,
    ensures
        r@ == spec_benchmark_report_command(*config),
{
    let mut cmd = String::from_str("gprof --brief ");
    let target = get_target(config);
    cmd.append(target.as_str());
    cmd.append("/benchmark");
    proof {
        assert(cmd@ =~= spec_benchmark_report_command(*config));
    }
    cmd
}

} // verus!
