use c_builder::compile::{generate_build_command, get_object_name, BuildArgs, Config, Memory, Mode, Package};
use c_builder::includes::{
    get_includes, get_includes_from_file, DirLink, Include, IncludeType, ScanError, SourceFile,
    SourceTree,
};

fn file(dir: &str, name: &str, lines: &[&str]) -> SourceFile {
    SourceFile {
        dir: dir.to_string(),
        name: name.to_string(),
        lines: lines.iter().map(|l| l.to_string()).collect(),
    }
}

fn link(base: &str, rel: &str, canon: &str) -> DirLink {
    DirLink {
        base: base.to_string(),
        rel: rel.to_string(),
        canon: canon.to_string(),
    }
}

fn local(path: &str) -> Include {
    Include {
        kind: IncludeType::Local(path.to_string()),
    }
}

#[test]
fn test_get_includes() {
    let dir = "examples/tests/src";
    let tree = SourceTree {
        files: vec![
            file(
                dir,
                "main.c",
                &["#include \"test.h\"", "#include <stdio.h>", "", "int main() { return 0; }"],
            ),
            file(dir, "test.h", &["#pragma once"]),
            file(dir, "test.c", &["#include \"testing.c\""]),
            file(dir, "testing.c", &["int testing(void) { return 1; }"]),
        ],
        links: vec![link(dir, "", dir)],
    };
    let includes = get_includes(&tree, dir.to_string()).unwrap();
    assert_eq!(includes.len(), 3);
    assert_eq!(
        includes.contains(&local("examples/tests/src/testing.c")),
        true
    );
    assert_eq!(includes.contains(&local("examples/tests/src/test.h")), true);
}

#[test]
fn test_scan_idempotent() {
    let dir = "proj/src";
    let tree = SourceTree {
        files: vec![
            file(dir, "main.c", &["#include \"util.h\"", "#include <stdio.h>"]),
            file(dir, "util.h", &[]),
            file(dir, "util.c", &["#include <string.h>"]),
        ],
        links: vec![link(dir, "", dir)],
    };
    let first = get_includes(&tree, dir.to_string()).unwrap();
    let second = get_includes(&tree, dir.to_string()).unwrap();
    assert_eq!(first, second);
    // sorted and duplicate-free: the system marker first, then locals by path
    assert_eq!(
        first,
        vec![
            Include { kind: IncludeType::System },
            local("proj/src/util.h"),
        ]
    );
}

#[test]
fn test_cycle_terminates() {
    let dir = "proj/src";
    let tree = SourceTree {
        files: vec![
            file(dir, "main.c", &["#include \"a.h\""]),
            file(dir, "a.h", &["#include \"b.h\""]),
            file(dir, "a.c", &[]),
            file(dir, "b.h", &["#include \"a.h\""]),
            file(dir, "b.c", &[]),
        ],
        links: vec![link(dir, "", dir)],
    };
    let includes = get_includes(&tree, dir.to_string()).unwrap();
    assert_eq!(includes.len(), 2);
    assert_eq!(includes[0], local("proj/src/a.h"));
    assert_eq!(includes[1], local("proj/src/b.h"));
}

#[test]
fn test_system_include_never_local() {
    let dir = "proj/src";
    // a like-named local pair exists, but the angle brackets make it a
    // system dependency: nothing is resolved against the tree
    let tree = SourceTree {
        files: vec![
            file(dir, "main.c", &["#include <stdio.h>"]),
            file(dir, "stdio.h", &[]),
            file(dir, "stdio.c", &[]),
        ],
        links: vec![link(dir, "", dir)],
    };
    let includes = get_includes(&tree, dir.to_string()).unwrap();
    assert_eq!(includes, vec![Include { kind: IncludeType::System }]);
}

#[test]
fn test_header_without_source_dropped() {
    let dir = "proj/src";
    let tree = SourceTree {
        files: vec![
            file(
                dir,
                "main.c",
                &["#include \"lonely.h\"", "#include \"util.h\"", "#include \"lonely.h\""],
            ),
            file(dir, "lonely.h", &[]),
            file(dir, "util.h", &[]),
            file(dir, "util.c", &[]),
        ],
        links: vec![link(dir, "", dir)],
    };
    // the headerless include produces no unit and does not abort the scan
    let includes = get_includes(&tree, dir.to_string()).unwrap();
    assert_eq!(includes, vec![local("proj/src/util.h")]);
}

#[test]
fn test_subdirectory_include() {
    let dir = "proj/src";
    let sub = "proj/src/sub";
    let tree = SourceTree {
        files: vec![
            file(dir, "main.c", &["#include \"sub/util.h\""]),
            file(sub, "util.h", &[]),
            file(sub, "util.c", &[]),
        ],
        links: vec![link(dir, "sub", sub), link(sub, "", sub)],
    };
    let includes = get_includes(&tree, dir.to_string()).unwrap();
    assert_eq!(includes, vec![local("proj/src/sub/util.h")]);
}

#[test]
fn test_missing_entry_file() {
    let tree = SourceTree {
        files: vec![],
        links: vec![],
    };
    let r = get_includes(&tree, "proj/src".to_string());
    assert_eq!(
        r,
        Err(ScanError::NotFound {
            dir: "proj/src".to_string(),
            name: "main.c".to_string(),
        })
    );
}

#[test]
fn test_missing_header_is_fatal() {
    let dir = "proj/src";
    // gone.c exists, so the include is a unit, but opening gone.h fails
    let tree = SourceTree {
        files: vec![
            file(dir, "main.c", &["#include \"gone.h\""]),
            file(dir, "gone.c", &[]),
        ],
        links: vec![link(dir, "", dir)],
    };
    let r = get_includes(&tree, dir.to_string());
    assert_eq!(
        r,
        Err(ScanError::NotFound {
            dir: dir.to_string(),
            name: "gone.h".to_string(),
        })
    );
}

#[test]
fn test_unresolved_directory_is_fatal() {
    let dir = "proj/src";
    let tree = SourceTree {
        files: vec![file(dir, "main.c", &["#include \"nowhere/x.h\""])],
        links: vec![link(dir, "", dir)],
    };
    let r = get_includes(&tree, dir.to_string());
    assert_eq!(
        r,
        Err(ScanError::PathResolution {
            dir: dir.to_string(),
            name: "x.h".to_string(),
        })
    );
}

#[test]
fn test_malformed_include_is_fatal() {
    let dir = "proj/src";
    let tree = SourceTree {
        files: vec![file(dir, "main.c", &["#include \"unclosed"])],
        links: vec![link(dir, "", dir)],
    };
    let r = get_includes(&tree, dir.to_string());
    assert_eq!(
        r,
        Err(ScanError::Malformed {
            file: "main.c".to_string(),
            line: "#include \"unclosed".to_string(),
        })
    );
}

#[test]
fn test_empty_include_name_is_fatal() {
    let dir = "proj/src";
    let tree = SourceTree {
        files: vec![file(dir, "main.c", &["#include \"\""])],
        links: vec![link(dir, "", dir)],
    };
    assert!(matches!(
        get_includes(&tree, dir.to_string()),
        Err(ScanError::Malformed { .. })
    ));
}

#[test]
fn test_get_includes_from_file_shares_visited() {
    let dir = "proj/src";
    let tree = SourceTree {
        files: vec![
            file(dir, "extra.c", &["#include \"util.h\""]),
            file(dir, "util.h", &[]),
            file(dir, "util.c", &[]),
        ],
        links: vec![link(dir, "", dir)],
    };
    let mut visited: Vec<String> = Vec::new();
    let first =
        get_includes_from_file(&tree, dir, "extra.c".to_string(), &mut visited).unwrap();
    assert_eq!(first, vec![local("proj/src/util.h")]);
    assert!(visited.contains(&"extra.c".to_string()));
    assert!(visited.contains(&"util.h".to_string()));
    // a second pass with the same visited list finds nothing new
    let second =
        get_includes_from_file(&tree, dir, "extra.c".to_string(), &mut visited).unwrap();
    assert_eq!(second, Vec::<Include>::new());
}

#[test]
fn test_scan_error_messages() {
    let not_found = ScanError::NotFound {
        dir: "proj/src".to_string(),
        name: "main.c".to_string(),
    };
    assert_eq!(not_found.message(), "Failed to open file: proj/src/main.c");
    let unresolved = ScanError::PathResolution {
        dir: "proj/src".to_string(),
        name: "x.h".to_string(),
    };
    assert_eq!(
        unresolved.message(),
        "Included header file `proj/src/x.h` not found"
    );
    let malformed = ScanError::Malformed {
        file: "main.c".to_string(),
        line: "#include \"".to_string(),
    };
    assert_eq!(
        malformed.message(),
        "Malformed include in `main.c`: #include \""
    );
}

#[test]
fn test_end_to_end_scan_and_link() {
    let dir = "src";
    let tree = SourceTree {
        files: vec![
            file(dir, "main.c", &["#include \"util.h\"", "#include <stdio.h>"]),
            file(dir, "util.h", &[]),
            file(dir, "util.c", &[]),
        ],
        links: vec![link(dir, "", dir)],
    };
    let includes = get_includes(&tree, dir.to_string()).unwrap();
    assert_eq!(
        includes,
        vec![Include { kind: IncludeType::System }, local("src/util.h")]
    );
    let config = Config {
        mode: Some(Mode::Debug),
        benchmark: Some(false),
        package: Package {
            name: "app".to_string(),
            src: "src".to_string(),
            ..Default::default()
        },
        debug: BuildArgs {
            debug: true,
            optimization: 0,
            warnings: false,
            pedantic: false,
            standard: "c11".to_string(),
        },
        release: BuildArgs::default(),
        memory: Memory {
            leak_check: "".to_string(),
            show_leak_kinds: "".to_string(),
            track_origins: false,
        },
    };
    let obj = get_object_name(&local("src/util.h"));
    assert_eq!(
        generate_build_command(&includes, &config, "src/main.c"),
        format!(
            "gcc src/main.c c_target/debug/obj/{} -o c_target/debug/app -O0 -g -std=c11 ",
            obj
        )
    );
}
