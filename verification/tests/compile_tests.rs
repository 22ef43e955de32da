use c_builder::compile::{
    compile_plan, generate_build_command, get_cflags, get_object_name, get_target, is_stale,
    BuildArgs, Config, Memory, MetaStat, Mode, Package, StaleError,
};
use c_builder::includes::{Include, IncludeType};

fn config_with(debug: BuildArgs, release: BuildArgs) -> Config {
    Config {
        mode: Some(Mode::Debug),
        benchmark: Some(false),
        package: Package {
            name: "test".to_string(),
            src: "src".to_string(),
            ..Default::default()
        },
        debug,
        release,
        memory: Memory {
            leak_check: "".to_string(),
            show_leak_kinds: "".to_string(),
            track_origins: false,
        },
    }
}

#[test]
fn test_get_cflags() {
    let config = config_with(
        BuildArgs {
            debug: true,
            optimization: 0,
            warnings: false,
            pedantic: false,
            standard: "c11".to_string(),
        },
        BuildArgs {
            debug: false,
            optimization: 0,
            warnings: false,
            pedantic: false,
            standard: "c11".to_string(),
        },
    );
    assert_eq!(get_cflags(&config), "-O0 -g -std=c11 ");
}

#[test]
fn test_get_cflags_all() {
    let mut config = config_with(
        BuildArgs {
            debug: true,
            optimization: 0,
            warnings: true,
            pedantic: true,
            standard: "c11".to_string(),
        },
        BuildArgs {
            debug: false,
            optimization: 3,
            warnings: true,
            pedantic: true,
            standard: "c11".to_string(),
        },
    );
    assert_eq!(get_cflags(&config), "-O0 -g -Wall -pedantic -std=c11 ");
    config.mode = Some(Mode::Release);
    assert_eq!(get_cflags(&config), "-O3 -Wall -pedantic -std=c11 ");
}

#[test]
fn test_get_target() {
    let mut config = config_with(
        BuildArgs {
            debug: true,
            optimization: 0,
            warnings: false,
            pedantic: false,
            standard: "c11".to_string(),
        },
        BuildArgs {
            debug: false,
            optimization: 0,
            warnings: false,
            pedantic: false,
            standard: "c11".to_string(),
        },
    );
    assert_eq!(get_target(&config), "c_target/debug");
    config.mode = Some(Mode::Release);
    assert_eq!(get_target(&config), "c_target/release");

    config.mode = Some(Mode::Debug);
    config.benchmark = Some(true);
    assert_eq!(get_target(&config), "c_target/benchmark");
    config.mode = Some(Mode::Release);
    assert_eq!(get_target(&config), "c_target/benchmark");
}

#[test]
fn test_get_object_name() {
    let unit = Include {
        kind: IncludeType::Local("test.c".to_string()),
    };
    assert_eq!(get_object_name(&unit), "5868638564572808266.o");
}

#[test]
fn test_generate_build_command() {
    let includes = vec![
        Include {
            kind: IncludeType::Local("test.c".to_string()),
        },
        Include {
            kind: IncludeType::Local("test2.c".to_string()),
        },
    ];
    let config = config_with(
        BuildArgs {
            debug: true,
            optimization: 0,
            warnings: false,
            pedantic: false,
            standard: "c11".to_string(),
        },
        BuildArgs {
            debug: false,
            optimization: 0,
            warnings: false,
            pedantic: false,
            standard: "c11".to_string(),
        },
    );
    assert_eq!(
        generate_build_command(&includes, &config, "src/main.c"),
        "gcc src/main.c c_target/debug/obj/5868638564572808266.o c_target/debug/obj/10537904563806491211.o -o c_target/debug/test -O0 -g -std=c11 "
    );
}

#[test]
fn test_get_cflags_benchmark() {
    let mut config = config_with(
        BuildArgs {
            debug: false,
            optimization: 2,
            warnings: false,
            pedantic: false,
            standard: "c2x".to_string(),
        },
        BuildArgs {
            debug: false,
            optimization: 2,
            warnings: false,
            pedantic: false,
            standard: "c2x".to_string(),
        },
    );
    config.benchmark = Some(true);
    assert_eq!(get_cflags(&config), "-O2 -std=c2x -pg ");
}

#[test]
fn test_object_names_deterministic_and_distinct() {
    let a1 = Include {
        kind: IncludeType::Local("alpha.h".to_string()),
    };
    let a2 = Include {
        kind: IncludeType::Local("deeper/dir/alpha.h".to_string()),
    };
    let b = Include {
        kind: IncludeType::Local("beta.h".to_string()),
    };
    // the name alone decides: same bare name, same artifact, from any directory
    assert_eq!(get_object_name(&a1), get_object_name(&a2));
    // distinct bare names land in distinct artifact slots
    assert_ne!(get_object_name(&a1), get_object_name(&b));
}

#[test]
fn test_is_stale_clock_rules() {
    let local = Include {
        kind: IncludeType::Local("util.h".to_string()),
    };
    let system = Include {
        kind: IncludeType::System,
    };
    // fresh artifact: not stale; equal stamps count as up to date
    assert_eq!(
        is_stale(&local, MetaStat::Modified(5), MetaStat::Modified(9)),
        Ok(false)
    );
    assert_eq!(
        is_stale(&local, MetaStat::Modified(9), MetaStat::Modified(9)),
        Ok(false)
    );
    // source touched past the artifact: stale
    assert_eq!(
        is_stale(&local, MetaStat::Modified(10), MetaStat::Modified(9)),
        Ok(true)
    );
    // artifact gone: stale whatever the times say
    assert_eq!(
        is_stale(&local, MetaStat::Modified(1), MetaStat::Absent),
        Ok(true)
    );
    // system units are never compiled
    assert_eq!(
        is_stale(&system, MetaStat::Absent, MetaStat::Absent),
        Ok(false)
    );
    // errors: missing source, unreadable metadata
    assert_eq!(
        is_stale(&local, MetaStat::Absent, MetaStat::Absent),
        Err(StaleError::SourceMissing)
    );
    assert_eq!(
        is_stale(&local, MetaStat::Modified(1), MetaStat::Unreadable),
        Err(StaleError::Io)
    );
    assert_eq!(
        is_stale(&local, MetaStat::Unreadable, MetaStat::Absent),
        Err(StaleError::Io)
    );
}

#[test]
fn test_fresh_build_then_up_to_date() {
    let units = vec![
        Include {
            kind: IncludeType::System,
        },
        Include {
            kind: IncludeType::Local("src/a.h".to_string()),
        },
        Include {
            kind: IncludeType::Local("src/b.h".to_string()),
        },
    ];
    let config = config_with(
        BuildArgs {
            debug: true,
            optimization: 0,
            warnings: false,
            pedantic: false,
            standard: "c11".to_string(),
        },
        BuildArgs::default(),
    );
    // empty object directory: every local unit is compiled
    let fresh: Vec<(MetaStat, MetaStat)> = vec![
        (MetaStat::Modified(7), MetaStat::Absent),
        (MetaStat::Modified(7), MetaStat::Absent),
        (MetaStat::Modified(7), MetaStat::Absent),
    ];
    let plan = compile_plan(&units, &fresh, &config).unwrap();
    assert_eq!(plan.len(), 2);
    assert_eq!(
        plan[0],
        format!(
            "gcc -fdiagnostics-color=always -O0 -g -std=c11  -c src/a.c -o c_target/debug/obj/{}",
            get_object_name(&units[1])
        )
    );
    // second round with fresh artifacts: nothing left to compile
    let done: Vec<(MetaStat, MetaStat)> = vec![
        (MetaStat::Modified(7), MetaStat::Modified(8)),
        (MetaStat::Modified(7), MetaStat::Modified(8)),
        (MetaStat::Modified(7), MetaStat::Modified(8)),
    ];
    let plan2 = compile_plan(&units, &done, &config).unwrap();
    assert_eq!(plan2.len(), 0);
    // a staleness error stops the batch
    let broken: Vec<(MetaStat, MetaStat)> = vec![
        (MetaStat::Modified(7), MetaStat::Absent),
        (MetaStat::Absent, MetaStat::Absent),
        (MetaStat::Modified(7), MetaStat::Absent),
    ];
    assert_eq!(
        compile_plan(&units, &broken, &config),
        Err(StaleError::SourceMissing)
    );
}
