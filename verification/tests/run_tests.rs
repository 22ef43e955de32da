use c_builder::compile::{BuildArgs, Config, Memory, Mode, Package};
use c_builder::run::{benchmark_report_command, get_memory_string, memory_run_command, run_command};

fn config_with_memory(memory: Memory) -> Config {
    Config {
        package: Default::default(),
        mode: Some(Mode::Debug),
        benchmark: Some(false),
        debug: Default::default(),
        release: Default::default(),
        memory,
    }
}

#[test]
fn test_get_memory_string() {
    let config = config_with_memory(Memory {
        leak_check: "full".to_string(),
        show_leak_kinds: "definite".to_string(),
        track_origins: true,
    });
    let memory_string = get_memory_string(&config);
    assert_eq!(
        memory_string,
        "--leak-check=full --show-leak-kinds=definite --track-origins=yes"
    );
}

#[test]
fn test_get_memory_string_empty() {
    let config = config_with_memory(Memory {
        leak_check: "".to_string(),
        show_leak_kinds: "".to_string(),
        track_origins: false,
    });
    let memory_string = get_memory_string(&config);
    assert_eq!(memory_string, " --track-origins=no");
}

#[test]
fn test_run_command() {
    let mut config = Config {
        package: Package {
            name: "demo".to_string(),
            ..Default::default()
        },
        mode: Some(Mode::Release),
        benchmark: Some(false),
        debug: Default::default(),
        release: Default::default(),
        memory: Memory {
            leak_check: "".to_string(),
            show_leak_kinds: "".to_string(),
            track_origins: false,
        },
    };
    assert_eq!(run_command(&config), "c_target/release/demo");
    config.benchmark = Some(true);
    assert_eq!(run_command(&config), "c_target/benchmark/benchmark");
}

#[test]
fn test_memory_run_command() {
    let config = Config {
        package: Package {
            name: "demo".to_string(),
            ..Default::default()
        },
        mode: Some(Mode::Debug),
        benchmark: Some(false),
        debug: Default::default(),
        release: Default::default(),
        memory: Memory {
            leak_check: "full".to_string(),
            show_leak_kinds: "all".to_string(),
            track_origins: true,
        },
    };
    assert_eq!(
        memory_run_command(&config),
        "valgrind --leak-check=full --show-leak-kinds=all --track-origins=yes ./c_target/debug/demo"
    );
}

#[test]
fn test_benchmark_report_command() {
    let config = Config {
        package: Default::default(),
        mode: Some(Mode::Debug),
        benchmark: Some(true),
        debug: Default::default(),
        release: Default::default(),
        memory: Memory {
            leak_check: "".to_string(),
            show_leak_kinds: "".to_string(),
            track_origins: false,
        },
    };
    assert_eq!(
        benchmark_report_command(&config),
        "gprof --brief c_target/benchmark/benchmark"
    );
}
