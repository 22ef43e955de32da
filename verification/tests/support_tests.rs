use c_builder::cli::Test;
use c_builder::includes::SourceFile;
use c_builder::init::{project_name, toml_contents};
use c_builder::paths::{bare_name, path_with_c_ext, with_c_ext};
use c_builder::test_framework::{get_test, get_tests, is_test_source_name, runner_source, Tests};
use c_builder::text::{str_lex_le, str_remove_all, str_trim, u64_to_dec};

#[test]
fn test_u64_to_dec() {
    assert_eq!(u64_to_dec(0), "0");
    assert_eq!(u64_to_dec(7), "7");
    assert_eq!(u64_to_dec(42), "42");
    assert_eq!(u64_to_dec(1000), "1000");
    assert_eq!(u64_to_dec(u64::MAX), "18446744073709551615");
}

#[test]
fn test_str_trim() {
    assert_eq!(str_trim("  spaced\t"), "spaced");
    assert_eq!(str_trim("\"util.h\"\n"), "\"util.h\"");
    assert_eq!(str_trim("   "), "");
    assert_eq!(str_trim("solid"), "solid");
}

#[test]
fn test_str_remove_all() {
    assert_eq!(str_remove_all("tests/alpha.c", "tests/"), "alpha.c");
    assert_eq!(str_remove_all("tests/sub/tests/x.c", "tests/"), "sub/x.c");
    assert_eq!(str_remove_all("plain.c", "tests/"), "plain.c");
}

#[test]
fn test_str_lex_le() {
    assert!(str_lex_le("a", "b"));
    assert!(str_lex_le("abc", "abd"));
    assert!(str_lex_le("ab", "abc"));
    assert!(!str_lex_le("abd", "abc"));
    assert!(str_lex_le("same", "same"));
}

#[test]
fn test_with_c_ext() {
    assert_eq!(with_c_ext("util.h"), "util.c");
    assert_eq!(with_c_ext("testing.c"), "testing.c");
    assert_eq!(with_c_ext("plain"), "plain.c");
    assert_eq!(with_c_ext(".hidden"), ".hidden.c");
    assert_eq!(path_with_c_ext("src/sub/util.h"), "src/sub/util.c");
    assert_eq!(path_with_c_ext("util.h"), "util.c");
}

#[test]
fn test_bare_name() {
    assert_eq!(bare_name("a/b/util.h"), "util.h");
    assert_eq!(bare_name("util.h"), "util.h");
    assert_eq!(project_name("work/projects/demo"), "demo");
    assert_eq!(project_name("demo"), "demo");
}

#[test]
fn test_toml_contents() {
    let text = toml_contents("demo");
    assert_eq!(
        text,
        "[package]\nname = \"demo\"\nversion = \"0.1.0\"\nauthors = [\"Your Name\"]\nsrc = \"src\"\n\n\
         [debug]\npath = \"c_target/debug/\"\ndebug = true\noptimization = 0\nwarnings = true\npedantic = true\nstd = \"c2x\"\n\n\
         [release]\npath = \"c_target/release/\"\ndebug = false\noptimization = 3\nwarnings = true\npedantic = false\nstd = \"c2x\"\n\n\
         [memory]\nleak_check = \"full\"\nshow_leak_kinds = \"all\"\ntrack_origins = true\n"
    );
}

#[test]
fn test_is_test_source_name() {
    assert!(is_test_source_name("alpha_test.c"));
    assert!(!is_test_source_name("test_framework.c"));
    assert!(!is_test_source_name("tests.c"));
    assert!(!is_test_source_name("notes.txt"));
    assert!(!is_test_source_name("header.h"));
}

#[test]
fn test_get_test() {
    let all = Test {
        release: false,
        single: None,
    };
    assert_eq!(get_test(&all), "test");
    let one = Test {
        release: false,
        single: Some("parsing".to_string()),
    };
    assert_eq!(get_test(&one), "parsing");
}

#[test]
fn test_get_tests() {
    let files = vec![
        SourceFile {
            dir: "tests".to_string(),
            name: "alpha.c".to_string(),
            lines: vec![
                "#include \"test_framework.h\"".to_string(),
                "TEST(add_works) {".to_string(),
                "    ASSERT(1);".to_string(),
                "}".to_string(),
                "TEST(sub_works) {".to_string(),
                "}".to_string(),
            ],
        },
        SourceFile {
            dir: "tests".to_string(),
            name: "beta.c".to_string(),
            lines: vec!["TEST(mul_works) {".to_string(), "}".to_string()],
        },
    ];
    let tests = get_tests(&files);
    assert_eq!(tests.test_files, vec!["tests/alpha.c", "tests/beta.c"]);
    assert_eq!(tests.tests, vec!["add_works", "sub_works", "mul_works"]);
}

#[test]
fn test_runner_source() {
    let tests = Tests {
        test_files: vec!["tests/alpha.c".to_string()],
        tests: vec!["add_works".to_string()],
    };
    let source = runner_source(&tests);
    assert_eq!(
        source,
        "#include \"test_framework.h\"\n\n\
         #include \"alpha.c\"\n\
         \n#include <stdio.h>\n#include <setjmp.h>\n\n\
         extern jmp_buf jmpbuf;\nextern char *error_msg;\n\n\
         struct Test tests[] = {\n\
         { \"add_works\", test_add_works },\n\
         };\n\nint main() {\n\
         for (int i = 0; i < 1; i++) {\n\
         if (setjmp(jmpbuf) == 0) {\n\
         tests[i].test();\n\
         printf(\"Test `%s` passed\\n\", tests[i].name);\n\
         } else {\n\
         printf(\"Test `%s` failed: %s\\n\", tests[i].name, error_msg);\n\
         }\n}\nreturn 0;\n}\n"
    );
}
