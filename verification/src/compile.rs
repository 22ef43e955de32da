//! Build configuration and the compile pipeline's pure core: compiler flag
//! assembly, target-directory selection, deterministic artifact naming,
//! staleness decisions, the per-unit compile commands, and the final link
//! command.
//!
//! Reading the configuration file and file metadata, creating directories
//! and running the compiler happen outside the library; these functions take
//! the observed values and pin down exactly what commands follow from them.

use std::collections::hash_map::DefaultHasher;
use std::hash::Hasher;

use vstd::prelude::*;
use vstd::std_specs::hash::DefaultHasherAdditionalSpecFns;
use vstd::string::*;

use crate::includes::{incs_view, strs_view, Include, IncludeType, IncludeV};
use crate::paths::{bare_name, path_with_c_ext, spec_bare_name, spec_path_with_c_ext};
use crate::text::{dec_digits, ends_with_chars, str_ends_with, u64_to_dec};

verus! {

/// Whether a build is a debug or a release build.
#[derive(Debug, Clone, Copy, PartialEq, Eq, Structural)]
pub enum Mode {
    Debug,
    Release,
}

/// The `[package]` section of the build configuration.
#[derive(Debug, Clone)]
pub struct Package {
    pub name: String,
    pub version: String,
    pub authors: Vec<String>,
    pub src: String,
    pub benchmark: String,
}

impl Default for Package {
    /// An empty package description.
    fn default() -> (r: Self)
        ensures
            r.name@ == Seq::<char>::empty(),
            r.version@ == Seq::<char>::empty(),
            r.authors@ == Seq::<String>::empty(),
            r.src@ == Seq::<char>::empty(),
            r.benchmark@ == Seq::<char>::empty(),
    {
        Package {
            name: String::new(),
            version: String::new(),
            authors: Vec::new(),
            src: String::new(),
            benchmark: String::new(),
        }
    }
}

/// One profile's compiler settings.
#[derive(Debug, Clone)]
pub struct BuildArgs {
    pub debug: bool,
    pub optimization: u8,
    pub warnings: bool,
    pub pedantic: bool,
    pub standard: String,
}

impl Default for BuildArgs {
    /// All flags off, optimization zero, no language standard.
    fn default() -> (r: Self)
        ensures
            r.debug == false,
            r.optimization == 0,
            r.warnings == false,
            r.pedantic == false,
            r.standard@ == Seq::<char>::empty(),
    {
        BuildArgs {
            debug: false,
            optimization: 0,
            warnings: false,
            pedantic: false,
            standard: String::new(),
        }
    }
}

/// The `[memory]` section: options for the memory checker.
#[derive(Debug, Clone)]
pub struct Memory {
    pub leak_check: String,
    pub show_leak_kinds: String,
    pub track_origins: bool,
}

/// The whole build configuration, as the configuration file and the command
/// line supply it.
#[derive(Debug, Clone)]
pub struct Config {
    pub mode: Option<Mode>,
    pub benchmark: Option<bool>,
    pub package: Package,
    pub debug: BuildArgs,
    pub release: BuildArgs,
    pub memory: Memory,
}

/// The profile a configuration selects: the debug profile unless the mode
/// says release.
pub open spec fn spec_profile(c: Config) -> BuildArgs {
    if c.mode == Some(Mode::Debug) {
        c.debug
    } else {
        c.release
    }
}

/// The compiler flag string: optimization level, then `-g`, `-Wall` and
/// `-pedantic` as the profile asks, the language standard, and `-pg` for a
/// benchmark build.  Every piece ends with a space.
pub open spec fn spec_cflags(c: Config) -> Seq<char> {
    let b = spec_profile(c);
    "-O"@ + dec_digits(b.optimization as nat) + " "@ + (if b.debug {
        "-g "@
    } else {
        Seq::<char>::empty()
    }) + (if b.warnings {
        "-Wall "@
    } else {
        Seq::<char>::empty()
    }) + (if b.pedantic {
        "-pedantic "@
    } else {
        Seq::<char>::empty()
    }) + "-std="@ + b.standard@ + " "@ + (if c.benchmark == Some(true) {
        "-pg "@
    } else {
        Seq::<char>::empty()
    })
}

/// Assembles the compiler flags for the selected profile.
pub fn get_cflags(config: &Config) -> (r: String)
    requires
        config.mode is Some,
        config.benchmark is Some,
    ensures
        r@ == spec_cflags(*config),
{
    let mut f = String::from_str("-O");
    let is_debug = matches!(config.mode, Some(Mode::Debug));
    let b = if is_debug {
        &config.debug
    } else {
        &config.release
    };
    let opt = u64_to_dec(b.optimization as u64);
    f.append(opt.as_str());
    f.append(" ");
    if b.debug {
        f.append("-g ");
    }
    if b.warnings {
        f.append("-Wall ");
    }
    if b.pedantic {
        f.append("-pedantic ");
    }
    f.append("-std=");
    f.append(b.standard.as_str());
    f.append(" ");
    let is_benchmark = matches!(config.benchmark, Some(true));
    if is_benchmark {
        f.append("-pg ");
    }
    proof {
        assert(f@ =~= spec_cflags(*config));
    }
    f
}

/// The output directory for the selected mode: benchmarks in their own
/// directory, otherwise one per mode.
pub open spec fn spec_target(c: Config) -> Seq<char> {
    if c.benchmark == Some(true) {
        "c_target/benchmark"@
    } else if c.mode == Some(Mode::Debug) {
        "c_target/debug"@
    } else {
        "c_target/release"@
    }
}

/// Picks the output directory for the selected mode.
pub fn get_target(config: &Config) -> (r: String)
    requires
        config.mode is Some,
        config.benchmark is Some,
    ensures
        r@ == spec_target(*config),
{
    let is_benchmark = matches!(config.benchmark, Some(true));
    if is_benchmark {
        String::from_str("c_target/benchmark")
    } else {
        let is_debug = matches!(config.mode, Some(Mode::Debug));
        if is_debug {
            String::from_str("c_target/debug")
        } else {
            String::from_str("c_target/release")
        }
    }
}

/// The hash that names a unit's artifact: the standard library's default
/// hasher fed the file name's bytes and the terminator it appends for
/// strings.  The hasher starts from a fixed state, so the value is a
/// function of the name alone, stable within and across runs.
pub open spec fn spec_name_hash(name: Seq<char>) -> u64 {
    DefaultHasher::spec_finish(seq![vstd::utf8::encode_utf8(name), seq![255u8]])
}

/// Hashes a bare file name for artifact naming.
pub fn hash_bare_name(name: &str) -> (r: u64)
    ensures
        r == spec_name_hash(name@),
{
    let mut h = DefaultHasher::new();
    h.write(name.as_bytes());
    let mut term: Vec<u8> = Vec::new();
    term.push(255);
    h.write(term.as_slice());
    proof {
        assert(term@ =~= seq![255u8]);
        assert(h@ =~= seq![vstd::utf8::encode_utf8(name@), seq![255u8]]);
    }
    h.finish()
}

/// The artifact identifier for a bare file name: the decimal hash value
/// with the object extension.
pub open spec fn spec_artifact_id(name: Seq<char>) -> Seq<char> {
    dec_digits(spec_name_hash(name) as nat) + ".o"@
}

/// The artifact name of a local unit: derived from the bare file name of
/// its canonical path alone, so the same header always maps to the same
/// object file.
pub open spec fn spec_object_name(p: Seq<char>) -> Seq<char> {
    spec_artifact_id(spec_bare_name(p))
}

/// Names the object artifact of a local unit.
pub fn get_object_name(unit: &Include) -> (r: String)
    requires
        unit@ is Local,
    ensures
        r@ == spec_object_name(unit@->Local_0),
{
    match &unit.kind {
        IncludeType::Local(p) => {
            let bare = bare_name(p.as_str());
            let h = hash_bare_name(bare.as_str());
            let mut s = u64_to_dec(h);
            s.append(".o");
            s
        },
        IncludeType::System => vstd::pervasive::unreached(),
    }
}

/// Equal bare names always give equal artifact identifiers, and bare names
/// whose hash values differ give distinct identifiers.  Distinct names can
/// thus only share an artifact slot on a hash collision; the identifier
/// itself introduces no further collisions, since decimal rendering is
/// injective.
pub proof fn lemma_distinct_hashes_distinct_artifacts(a: Seq<char>, b: Seq<char>)
    requires
        spec_name_hash(a) != spec_name_hash(b),
    ensures
        spec_artifact_id(a) != spec_artifact_id(b),
{
    let da = dec_digits(spec_name_hash(a) as nat);
    let db = dec_digits(spec_name_hash(b) as nat);
    if spec_artifact_id(a) == spec_artifact_id(b) {
        assert(da + ".o"@ == db + ".o"@);
        assert((da + ".o"@).len() == (db + ".o"@).len());
        assert(da.len() == db.len());
        assert forall|k: int| 0 <= k < da.len() implies da[k] == db[k] by {
            assert((da + ".o"@)[k] == (db + ".o"@)[k]);
        }
        assert(da =~= db);
        crate::text::lemma_dec_digits_injective(
            spec_name_hash(a) as nat,
            spec_name_hash(b) as nat,
        );
    }
}

/// The name the linked program gets: `test` for a test harness entry file,
/// `benchmark` for a benchmark build, else the package name.
pub open spec fn spec_output_name(c: Config, main: Seq<char>) -> Seq<char> {
    if ends_with_chars(main, "tests.c"@) {
        "test"@
    } else if c.benchmark == Some(true) {
        "benchmark"@
    } else {
        c.package.name@
    }
}

/// The object-path part of the link command: one `<target>/obj/<id> ` per
/// local unit, in the unit list's order; system markers contribute nothing.
pub open spec fn spec_objects_part(incs: Seq<IncludeV>, c: Config) -> Seq<char>
    decreases incs.len(),
{
    if incs.len() == 0 {
        Seq::<char>::empty()
    } else {
        spec_objects_part(incs.drop_last(), c) + (match incs.last() {
            IncludeV::System => Seq::<char>::empty(),
            IncludeV::Local(p) => spec_target(c) + "/obj/"@ + spec_object_name(p) + " "@,
        })
    }
}

/// The whole link command: compiler, entry file, each local unit's object
/// path in the unit list's order, the output path, then the flags.
pub open spec fn spec_build_command(incs: Seq<IncludeV>, c: Config, main: Seq<char>) -> Seq<char> {
    "gcc "@ + main + " "@ + spec_objects_part(incs, c) + "-o "@ + spec_target(c) + "/"@
        + spec_output_name(c, main) + " "@ + spec_cflags(c)
}

/// Composes the final link command for the discovered unit set.
pub fn generate_build_command(includes: &Vec<Include>, config: &Config, main_file: &str) -> (r:
    String)
    requires
        config.mode is Some,
        config.benchmark is Some,
    ensures
        r@ == spec_build_command(incs_view(includes@), *config, main_file@),
{
    let mut cmd = String::from_str("gcc ");
    cmd.append(main_file);
    cmd.append(" ");
    let n = includes.len();
    let mut i: usize = 0;
    proof {
        assert(incs_view(includes@).subrange(0, 0) =~= Seq::<IncludeV>::empty());
    }
    while i < n
        invariant
            0 <= i <= n,
            n == includes@.len(),
            config.mode is Some,
            config.benchmark is Some,
            cmd@ == "gcc "@ + main_file@ + " "@ + spec_objects_part(
                incs_view(includes@).subrange(0, i as int),
                *config,
            ),
        decreases n - i,
    {
        let ghost pre = incs_view(includes@).subrange(0, i as int);
        let inc = &includes[i];
        proof {
            assert(incs_view(includes@)[i as int] == includes@[i as int]@);
            assert(incs_view(includes@).subrange(0, i + 1).drop_last() =~= pre);
            assert(incs_view(includes@).subrange(0, i + 1).last() == inc@);
        }
        match &inc.kind {
            IncludeType::Local(_) => {
                let target = get_target(config);
                cmd.append(target.as_str());
                cmd.append("/obj/");
                let obj = get_object_name(inc);
                cmd.append(obj.as_str());
                cmd.append(" ");
                proof {
                    assert(cmd@ =~= "gcc "@ + main_file@ + " "@ + spec_objects_part(
                        incs_view(includes@).subrange(0, i + 1),
                        *config,
                    ));
                }
            },
            IncludeType::System => {
                proof {
                    assert(cmd@ =~= "gcc "@ + main_file@ + " "@ + spec_objects_part(
                        incs_view(includes@).subrange(0, i + 1),
                        *config,
                    ));
                }
            },
        }
        i += 1;
    }
    proof {
        assert(incs_view(includes@).subrange(0, n as int) =~= incs_view(includes@));
    }
    cmd.append("-o ");
    let target = get_target(config);
    cmd.append(target.as_str());
    cmd.append("/");
    if str_ends_with(main_file, "tests.c") {
        cmd.append("test");
        proof {
            reveal_strlit("test");
        }
    } else {
        let is_benchmark = matches!(config.benchmark, Some(true));
        if is_benchmark {
            cmd.append("benchmark");
        } else {
            cmd.append(config.package.name.as_str());
        }
    }
    cmd.append(" ");
    let flags = get_cflags(config);
    cmd.append(flags.as_str());
    proof {
        assert(cmd@ =~= spec_build_command(incs_view(includes@), *config, main_file@));
    }
    cmd
}

/// What a metadata lookup on one file observed: a modification time, a file
/// that is not there, or a read failure of any other kind.
#[derive(Debug, Clone, Copy, PartialEq, Eq, Structural)]
pub enum MetaStat {
    Modified(u64),
    Absent,
    Unreadable,
}

/// Why a staleness check or a batch rebuild failed: the unit's source file
/// is gone, or its metadata could not be read.
#[derive(Debug, Clone, Copy, PartialEq, Eq, Structural)]
pub enum StaleError {
    SourceMissing,
    Io,
}

/// Whether a unit needs recompiling, from what the file system said about
/// its source file and its object artifact.  System units are never stale;
/// a missing artifact is always stale; otherwise a unit is stale exactly
/// when its source is strictly newer than its artifact.
pub open spec fn spec_is_stale(u: IncludeV, source: MetaStat, object: MetaStat) -> Result<
    bool,
    StaleError,
> {
    match u {
        IncludeV::System => Ok(false),
        IncludeV::Local(_) => match source {
            MetaStat::Absent => Err(StaleError::SourceMissing),
            MetaStat::Unreadable => Err(StaleError::Io),
            MetaStat::Modified(s) => match object {
                MetaStat::Absent => Ok(true),
                MetaStat::Unreadable => Err(StaleError::Io),
                MetaStat::Modified(o) => Ok(s > o),
            },
        },
    }
}

/// Decides staleness for one unit from the observed metadata.
pub fn is_stale(unit: &Include, source: MetaStat, object: MetaStat) -> (r: Result<
    bool,
    StaleError,
>)
    ensures
        r == spec_is_stale(unit@, source, object),
{
    match &unit.kind {
        IncludeType::System => Ok(false),
        IncludeType::Local(_) => match source {
            MetaStat::Absent => Err(StaleError::SourceMissing),
            MetaStat::Unreadable => Err(StaleError::Io),
            MetaStat::Modified(s) => match object {
                MetaStat::Absent => Ok(true),
                MetaStat::Unreadable => Err(StaleError::Io),
                MetaStat::Modified(o) => Ok(s > o),
            },
        },
    }
}

/// Staleness follows the clock: a local unit whose artifact is at least as
/// new as its source is up to date; touching the source past the artifact
/// makes it stale; a missing artifact is stale whatever the times say.
pub proof fn lemma_staleness_monotonic(u: IncludeV, s: u64, s2: u64, o: u64)
    requires
        u is Local,
        o >= s,
        s2 > o,
    ensures
        spec_is_stale(u, MetaStat::Modified(s), MetaStat::Modified(o)) == Ok::<bool, StaleError>(
            false,
        ),
        spec_is_stale(u, MetaStat::Modified(s2), MetaStat::Modified(o)) == Ok::<bool, StaleError>(
            true,
        ),
        spec_is_stale(u, MetaStat::Modified(s), MetaStat::Absent) == Ok::<bool, StaleError>(true),
        spec_is_stale(u, MetaStat::Modified(s2), MetaStat::Absent) == Ok::<bool, StaleError>(true),
{
}

/// The command that recompiles one local unit: the unit's companion source
/// file in, its object artifact out.
pub open spec fn spec_compile_command(p: Seq<char>, c: Config) -> Seq<char> {
    "gcc -fdiagnostics-color=always "@ + spec_cflags(c) + " -c "@ + spec_path_with_c_ext(p)
        + " -o "@ + spec_target(c) + "/obj/"@ + spec_object_name(p)
}

/// Composes the compile command for one local unit.
pub fn compile_command(unit: &Include, config: &Config) -> (r: String)
    requires
        unit@ is Local,
        config.mode is Some,
        config.benchmark is Some,
    ensures
        r@ == spec_compile_command(unit@->Local_0, *config),
{
    match &unit.kind {
        IncludeType::Local(p) => {
            let mut cmd = String::from_str("gcc -fdiagnostics-color=always ");
            let flags = get_cflags(config);
            cmd.append(flags.as_str());
            cmd.append(" -c ");
            let src = path_with_c_ext(p.as_str());
            cmd.append(src.as_str());
            cmd.append(" -o ");
            let target = get_target(config);
            cmd.append(target.as_str());
            cmd.append("/obj/");
            let obj = get_object_name(unit);
            cmd.append(obj.as_str());
            proof {
                assert(cmd@ =~= spec_compile_command(unit@->Local_0, *config));
            }
            cmd
        },
        IncludeType::System => vstd::pervasive::unreached(),
    }
}

/// The compile commands a batch rebuild issues: one per stale local unit,
/// in the unit list's order, stopping at the first staleness error.  Each
/// unit's staleness is judged from its own pair of metadata observations.
pub open spec fn spec_compile_plan(
    units: Seq<IncludeV>,
    stats: Seq<(MetaStat, MetaStat)>,
    c: Config,
) -> Result<Seq<Seq<char>>, StaleError>
    decreases units.len(),
{
    if units.len() == 0 {
        Ok(Seq::<Seq<char>>::empty())
    } else {
        match spec_compile_plan(units.drop_last(), stats.drop_last(), c) {
            Err(e) => Err(e),
            Ok(cmds) => match spec_is_stale(units.last(), stats.last().0, stats.last().1) {
                Err(e) => Err(e),
                Ok(true) => Ok(cmds.push(spec_compile_command(units.last()->Local_0, c))),
                Ok(false) => Ok(cmds),
            },
        }
    }
}

proof fn lemma_plan_err_at(
    units: Seq<IncludeV>,
    stats: Seq<(MetaStat, MetaStat)>,
    c: Config,
    i: int,
    e: StaleError,
)
    requires
        units.len() == stats.len(),
        0 <= i < units.len(),
        spec_compile_plan(units.subrange(0, i), stats.subrange(0, i), c) is Ok,
        spec_is_stale(units[i], stats[i].0, stats[i].1) == Err::<bool, StaleError>(e),
    ensures
        spec_compile_plan(units, stats, c) == Err::<Seq<Seq<char>>, StaleError>(e),
    decreases units.len(),
{
    let du = units.drop_last();
    let ds = stats.drop_last();
    if i == units.len() - 1 {
        assert(du =~= units.subrange(0, i));
        assert(ds =~= stats.subrange(0, i));
    } else {
        assert(du.subrange(0, i) =~= units.subrange(0, i));
        assert(ds.subrange(0, i) =~= stats.subrange(0, i));
        lemma_plan_err_at(du, ds, c, i, e);
    }
}

/// Plans a batch rebuild: pairs each unit with what the file system said
/// about it, keeps the stale local units, and returns their compile
/// commands.  The commands write disjoint artifact paths whenever the
/// units' bare names hash apart, so the caller may run them concurrently.
pub fn compile_plan(units: &Vec<Include>, stats: &Vec<(MetaStat, MetaStat)>, config: &Config) -> (r:
    Result<Vec<String>, StaleError>)
    requires
        units@.len() == stats@.len(),
        config.mode is Some,
        config.benchmark is Some,
    ensures
        ({
            let s = spec_compile_plan(incs_view(units@), stats@, *config);
            match r {
                Ok(cmds) => match s {
                    Ok(sc) => strs_view(cmds@) == sc,
                    Err(_) => false,
                },
                Err(e) => match s {
                    Ok(_) => false,
                    Err(se) => e == se,
                },
            }
        }),
{
    let n = units.len();
    let mut out: Vec<String> = Vec::new();
    let mut i: usize = 0;
    proof {
        assert(strs_view(out@) =~= Seq::<Seq<char>>::empty());
        assert(incs_view(units@).subrange(0, 0) =~= Seq::<IncludeV>::empty());
        assert(stats@.subrange(0, 0) =~= Seq::<(MetaStat, MetaStat)>::empty());
    }
    while i < n
        invariant
            0 <= i <= n,
            n == units@.len(),
            n == stats@.len(),
            config.mode is Some,
            config.benchmark is Some,
            spec_compile_plan(
                incs_view(units@).subrange(0, i as int),
                stats@.subrange(0, i as int),
                *config,
            ) == Ok::<Seq<Seq<char>>, StaleError>(strs_view(out@)),
        decreases n - i,
    {
        let unit = &units[i];
        let st = stats[i];
        proof {
            assert(incs_view(units@)[i as int] == units@[i as int]@);
            assert(incs_view(units@).subrange(0, i + 1).drop_last() =~= incs_view(
                units@,
            ).subrange(0, i as int));
            assert(stats@.subrange(0, i + 1).drop_last() =~= stats@.subrange(0, i as int));
            assert(incs_view(units@).subrange(0, i + 1).last() == unit@);
            assert(stats@.subrange(0, i + 1).last() == st);
        }
        match is_stale(unit, st.0, st.1) {
            Err(e) => {
                proof {
                    lemma_plan_err_at(incs_view(units@), stats@, *config, i as int, e);
                }
                return Err(e);
            },
            Ok(true) => {
                let ghost o0 = strs_view(out@);
                let cmd = compile_command(unit, config);
                out.push(cmd);
                proof {
                    assert(strs_view(out@) =~= o0.push(
                        spec_compile_command(unit@->Local_0, *config),
                    ));
                }
            },
            Ok(false) => {},
        }
        i += 1;
    }
    proof {
        assert(incs_view(units@).subrange(0, n as int) =~= incs_view(units@));
        assert(stats@.subrange(0, n as int) =~= stats@);
    }
    Ok(out)
}

/// The commands of all local units, in order: what a fresh build compiles.
pub open spec fn spec_all_local_commands(units: Seq<IncludeV>, c: Config) -> Seq<Seq<char>>
    decreases units.len(),
{
    if units.len() == 0 {
        Seq::<Seq<char>>::empty()
    } else {
        spec_all_local_commands(units.drop_last(), c) + (match units.last() {
            IncludeV::System => Seq::<Seq<char>>::empty(),
            IncludeV::Local(p) => seq![spec_compile_command(p, c)],
        })
    }
}

/// A fresh build compiles everything: when no artifact exists yet and every
/// source is readable, the plan holds exactly one command per local unit,
/// in order.
pub proof fn lemma_fresh_build_compiles_all(
    units: Seq<IncludeV>,
    stats: Seq<(MetaStat, MetaStat)>,
    c: Config,
)
    requires
        units.len() == stats.len(),
        forall|i: int| 0 <= i < stats.len() ==> (#[trigger] stats[i].0) is Modified,
        forall|i: int| 0 <= i < stats.len() ==> (#[trigger] stats[i].1) == MetaStat::Absent,
    ensures
        spec_compile_plan(units, stats, c) == Ok::<Seq<Seq<char>>, StaleError>(
            spec_all_local_commands(units, c),
        ),
    decreases units.len(),
{
    if units.len() > 0 {
        lemma_fresh_build_compiles_all(units.drop_last(), stats.drop_last(), c);
        match units.last() {
            IncludeV::System => {
                assert(spec_all_local_commands(units, c) =~= spec_all_local_commands(
                    units.drop_last(),
                    c,
                ));
            },
            IncludeV::Local(p) => {
                assert(spec_all_local_commands(units, c) =~= spec_all_local_commands(
                    units.drop_last(),
                    c,
                ).push(spec_compile_command(p, c)));
            },
        }
    }
}

/// A build with nothing stale compiles nothing: when every unit's artifact
/// is at least as new as its source, the plan is empty.
pub proof fn lemma_up_to_date_build_compiles_nothing(
    units: Seq<IncludeV>,
    stats: Seq<(MetaStat, MetaStat)>,
    c: Config,
)
    requires
        units.len() == stats.len(),
        forall|i: int|
            0 <= i < stats.len() ==> (#[trigger] stats[i].0) is Modified && stats[i].1 is Modified
                && stats[i].1->Modified_0 >= stats[i].0->Modified_0,
    ensures
        spec_compile_plan(units, stats, c) == Ok::<Seq<Seq<char>>, StaleError>(
            Seq::<Seq<char>>::empty(),
        ),
    decreases units.len(),
{
    if units.len() > 0 {
        lemma_up_to_date_build_compiles_nothing(units.drop_last(), stats.drop_last(), c);
    }
}

} // verus!
