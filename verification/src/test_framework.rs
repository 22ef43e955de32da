//! The pure parts of the C test harness: recognizing test source files,
//! extracting test names from their text, and composing the generated
//! runner source.  Directory walks and file writes stay outside the
//! library.

use vstd::prelude::*;
use vstd::string::*;

use crate::cli::Test;
use crate::includes::{strs_view, SourceFile};
use crate::text::{
    dec_digits, ends_with_chars, remove_all_chars, starts_with_chars, str_ends_with, str_eq,
    str_remove_all, str_starts_with, substr, u64_to_dec,
};

verus! {

/// The discovered test sources: the files that hold tests and the names of
/// the tests they declare.
pub struct Tests {
    pub test_files: Vec<String>,
    pub tests: Vec<String>,
}

/// Whether a file name is a test source: a `.c` file that is neither the
/// harness itself nor the generated runner.
pub open spec fn spec_is_test_source_name(n: Seq<char>) -> bool {
    ends_with_chars(n, ".c"@) && n != "test_framework.c"@ && n != "tests.c"@
}

/// Recognizes the test source files among a directory's entries.
pub fn is_test_source_name(name: &str) -> (r: bool)
    ensures
        r == spec_is_test_source_name(name@),
{
    if !str_ends_with(name, ".c") {
        false
    } else if str_eq(name, "test_framework.c") {
        false
    } else if str_eq(name, "tests.c") {
        false
    } else {
        true
    }
}

/// The characters of a test name: everything up to the first parenthesis.
pub open spec fn take_until_paren(s: Seq<char>) -> Seq<char>
    decreases s.len(),
{
    if s.len() == 0 {
        s
    } else if s[0] == '(' || s[0] == ')' {
        Seq::<char>::empty()
    } else {
        seq![s[0]] + take_until_paren(s.drop_first())
    }
}

/// The test name a declaration line carries: the text between `TEST(` and
/// the next parenthesis.
pub open spec fn spec_test_name_of_line(line: Seq<char>) -> Seq<char> {
    take_until_paren(line.skip("TEST("@.len() as int))
}

fn name_end(s: &str, i: usize, sl: usize) -> (r: usize)
    requires
        sl == s@.len(),
        i <= sl,
    ensures
        i <= r <= sl,
        take_until_paren(s@.skip(i as int)) == s@.subrange(i as int, r as int),
    decreases sl - i,
{
    if i == sl {
        proof {
            assert(s@.skip(i as int) =~= Seq::<char>::empty());
            assert(s@.subrange(i as int, i as int) =~= Seq::<char>::empty());
        }
        i
    } else {
        proof {
            assert(s@.skip(i as int)[0] == s@[i as int]);
        }
        let c = s.get_char(i);
        if c == '(' || c == ')' {
            proof {
                assert(s@.subrange(i as int, i as int) =~= Seq::<char>::empty());
            }
            i
        } else {
            let r = name_end(s, i + 1, sl);
            proof {
                assert(s@.skip(i as int).drop_first() =~= s@.skip(i + 1));
                assert(take_until_paren(s@.skip(i as int)) =~= s@.subrange(i as int, r as int));
            }
            r
        }
    }
}

/// Extracts the test name from a declaration line.
pub fn test_name_of_line(line: &str) -> (r: String)
    requires
        starts_with_chars(line@, "TEST("@),
    ensures
        r@ == spec_test_name_of_line(line@),
{
    proof {
        reveal_strlit("TEST(");
    }
    let sl = line.unicode_len();
    let e = name_end(line, 5, sl);
    substr(line, 5, e)
}

/// The names declared by a file's lines: one per line that begins with
/// `TEST(`, in order.
pub open spec fn spec_tests_of_lines(lines: Seq<String>) -> Seq<Seq<char>>
    decreases lines.len(),
{
    if lines.len() == 0 {
        Seq::<Seq<char>>::empty()
    } else {
        spec_tests_of_lines(lines.drop_last()) + (if starts_with_chars(
            lines.last()@,
            "TEST("@,
        ) {
            seq![spec_test_name_of_line(lines.last()@)]
        } else {
            Seq::<Seq<char>>::empty()
        })
    }
}

/// The names declared by a list of files, file by file.
pub open spec fn spec_tests_of_files(files: Seq<SourceFile>) -> Seq<Seq<char>>
    decreases files.len(),
{
    if files.len() == 0 {
        Seq::<Seq<char>>::empty()
    } else {
        spec_tests_of_files(files.drop_last()) + spec_tests_of_lines(files.last().lines@)
    }
}

/// The paths the harness records for a list of files.
pub open spec fn spec_paths_of_files(files: Seq<SourceFile>) -> Seq<Seq<char>> {
    Seq::new(files.len(), |i: int| files[i].dir@ + seq!['/'] + files[i].name@)
}

fn tests_of_one_file(lines: &Vec<String>, out: &mut Vec<String>)
    ensures
        strs_view(final(out)@) == strs_view(old(out)@) + spec_tests_of_lines(lines@),
{
    let n = lines.len();
    let mut i: usize = 0;
    proof {
        assert(lines@.subrange(0, 0) =~= Seq::<String>::empty());
        assert(strs_view(out@) =~= strs_view(out@) + spec_tests_of_lines(lines@.subrange(0, 0)));
    }
    while i < n
        invariant
            0 <= i <= n,
            n == lines@.len(),
            strs_view(out@) == strs_view(old(out)@) + spec_tests_of_lines(
                lines@.subrange(0, i as int),
            ),
        decreases n - i,
    {
        let line = &lines[i];
        proof {
            assert(lines@.subrange(0, i + 1).drop_last() =~= lines@.subrange(0, i as int));
            assert(lines@.subrange(0, i + 1).last() == lines@[i as int]);
        }
        if str_starts_with(line.as_str(), "TEST(") {
            let ghost o0 = strs_view(out@);
            let name = test_name_of_line(line.as_str());
            out.push(name);
            proof {
                assert(strs_view(out@) =~= o0.push(spec_test_name_of_line(line@)));
                assert(strs_view(out@) =~= strs_view(old(out)@) + spec_tests_of_lines(
                    lines@.subrange(0, i + 1),
                ));
            }
        } else {
            proof {
                assert(strs_view(out@) =~= strs_view(old(out)@) + spec_tests_of_lines(
                    lines@.subrange(0, i + 1),
                ));
            }
        }
        i += 1;
    }
    proof {
        assert(lines@.subrange(0, n as int) =~= lines@);
    }
}

/// Collects the test files' recorded paths and the tests they declare.
pub fn get_tests(files: &Vec<SourceFile>) -> (r: Tests)
    ensures
        strs_view(r.test_files@) == spec_paths_of_files(files@),
        strs_view(r.tests@) == spec_tests_of_files(files@),
{
    let n = files.len();
    let mut paths: Vec<String> = Vec::new();
    let mut names: Vec<String> = Vec::new();
    let mut i: usize = 0;
    proof {
        assert(strs_view(paths@) =~= spec_paths_of_files(files@).subrange(0, 0));
        assert(files@.subrange(0, 0) =~= Seq::<SourceFile>::empty());
        assert(strs_view(names@) =~= spec_tests_of_files(files@.subrange(0, 0)));
    }
    while i < n
        invariant
            0 <= i <= n,
            n == files@.len(),
            strs_view(paths@) =~= spec_paths_of_files(files@).subrange(0, i as int),
            strs_view(names@) == spec_tests_of_files(files@.subrange(0, i as int)),
        decreases n - i,
    {
        let f = &files[i];
        let ghost p0 = strs_view(paths@);
        let path = crate::text::join_path(f.dir.as_str(), f.name.as_str());
        paths.push(path);
        proof {
            assert(strs_view(paths@) =~= p0.push(f.dir@ + seq!['/'] + f.name@));
            assert(strs_view(paths@) =~= spec_paths_of_files(files@).subrange(0, i + 1));
            assert(files@.subrange(0, i + 1).drop_last() =~= files@.subrange(0, i as int));
            assert(files@.subrange(0, i + 1).last() == files@[i as int]);
        }
        tests_of_one_file(&f.lines, &mut names);
        i += 1;
    }
    proof {
        assert(spec_paths_of_files(files@).subrange(0, n as int) =~= spec_paths_of_files(files@));
        assert(files@.subrange(0, n as int) =~= files@);
        assert(strs_view(paths@) == spec_paths_of_files(files@));
    }
    Tests { test_files: paths, tests: names }
}

/// The test the test subcommand runs: a single named test, or the whole
/// harness.
pub fn get_test(test: &Test) -> (r: String)
    ensures
        match test.single {
            Some(ref s) => r@ == s@,
            None => r@ == "test"@,
        },
{
    match &test.single {
        Some(s) => s.clone(),
        None => String::from_str("test"),
    }
}

/// One recorded path's include line in the generated runner: the path with
/// every `tests/` segment removed, in an include directive.
pub open spec fn spec_runner_include_line(path: Seq<char>) -> Seq<char> {
    remove_all_chars("#include \""@ + path + "\"\n"@, "tests/"@)
}

/// The include lines of the generated runner, in order.
pub open spec fn spec_runner_includes(paths: Seq<Seq<char>>) -> Seq<char>
    decreases paths.len(),
{
    if paths.len() == 0 {
        Seq::<char>::empty()
    } else {
        spec_runner_includes(paths.drop_last()) + spec_runner_include_line(paths.last())
    }
}

/// One test's entry in the runner's table.
pub open spec fn spec_runner_table_line(name: Seq<char>) -> Seq<char> {
    "{ \""@ + name + "\", test_"@ + name + " },\n"@
}

/// The runner's whole test table body, in order.
pub open spec fn spec_runner_table(names: Seq<Seq<char>>) -> Seq<char>
    decreases names.len(),
{
    if names.len() == 0 {
        Seq::<char>::empty()
    } else {
        spec_runner_table(names.drop_last()) + spec_runner_table_line(names.last())
    }
}

/// The whole generated runner source: the harness header, the test files,
/// the table of tests, and a `main` that runs each test and reports it.
pub open spec fn spec_runner_source(paths: Seq<Seq<char>>, names: Seq<Seq<char>>) -> Seq<char> {
    "#include \"test_framework.h\"\n\n"@ + spec_runner_includes(paths)
        + "\n#include <stdio.h>\n#include <setjmp.h>\n\nextern jmp_buf jmpbuf;\nextern char *error_msg;\n\nstruct Test tests[] = {\n"@
        + spec_runner_table(names) + "};\n\nint main() {\nfor (int i = 0; i < "@ + dec_digits(
        names.len(),
    )
        + "; i++) {\nif (setjmp(jmpbuf) == 0) {\ntests[i].test();\nprintf(\"Test `%s` passed\\n\", tests[i].name);\n} else {\nprintf(\"Test `%s` failed: %s\\n\", tests[i].name, error_msg);\n}\n}\nreturn 0;\n}\n"@
}

/// Composes the generated runner source for the discovered tests.
pub fn runner_source(tests: &Tests) -> (r: String)
    ensures
        r@ == spec_runner_source(strs_view(tests.test_files@), strs_view(tests.tests@)),
{
    let mut s = String::from_str("#include \"test_framework.h\"\n\n");
    let n = tests.test_files.len();
    let mut i: usize = 0;
    proof {
        assert(strs_view(tests.test_files@).subrange(0, 0) =~= Seq::<Seq<char>>::empty());
        assert(s@ =~= "#include \"test_framework.h\"\n\n"@ + spec_runner_includes(
            strs_view(tests.test_files@).subrange(0, 0),
        ));
    }
    while i < n
        invariant
            0 <= i <= n,
            n == tests.test_files@.len(),
            s@ == "#include \"test_framework.h\"\n\n"@ + spec_runner_includes(
                strs_view(tests.test_files@).subrange(0, i as int),
            ),
        decreases n - i,
    {
        let path = &tests.test_files[i];
        let mut line = String::from_str("#include \"");
        line.append(path.as_str());
        line.append("\"\n");
        proof {
            reveal_strlit("tests/");
        }
        let cleaned = str_remove_all(line.as_str(), "tests/");
        s.append(cleaned.as_str());
        proof {
            assert(strs_view(tests.test_files@)[i as int] == path@);
            assert(strs_view(tests.test_files@).subrange(0, i + 1).drop_last() =~= strs_view(
                tests.test_files@,
            ).subrange(0, i as int));
            assert(strs_view(tests.test_files@).subrange(0, i + 1).last() == path@);
            assert(s@ =~= "#include \"test_framework.h\"\n\n"@ + spec_runner_includes(
                strs_view(tests.test_files@).subrange(0, i + 1),
            ));
        }
        i += 1;
    }
    proof {
        assert(strs_view(tests.test_files@).subrange(0, n as int) =~= strs_view(
            tests.test_files@,
        ));
    }
    s.append(
        "\n#include <stdio.h>\n#include <setjmp.h>\n\nextern jmp_buf jmpbuf;\nextern char *error_msg;\n\nstruct Test tests[] = {\n",
    );
    let ghost table_pre = s@;
    let m = tests.tests.len();
    let mut j: usize = 0;
    proof {
        assert(strs_view(tests.tests@).subrange(0, 0) =~= Seq::<Seq<char>>::empty());
        assert(s@ =~= table_pre + spec_runner_table(strs_view(tests.tests@).subrange(0, 0)));
    }
    while j < m
        invariant
            0 <= j <= m,
            m == tests.tests@.len(),
            s@ == table_pre + spec_runner_table(strs_view(tests.tests@).subrange(0, j as int)),
        decreases m - j,
    {
        let name = &tests.tests[j];
        s.append("{ \"");
        s.append(name.as_str());
        s.append("\", test_");
        s.append(name.as_str());
        s.append(" },\n");
        proof {
            assert(strs_view(tests.tests@)[j as int] == name@);
            assert(strs_view(tests.tests@).subrange(0, j + 1).drop_last() =~= strs_view(
                tests.tests@,
            ).subrange(0, j as int));
            assert(strs_view(tests.tests@).subrange(0, j + 1).last() == name@);
            assert(s@ =~= table_pre + spec_runner_table(
                strs_view(tests.tests@).subrange(0, j + 1),
            ));
        }
        j += 1;
    }
    proof {
        assert(strs_view(tests.tests@).subrange(0, m as int) =~= strs_view(tests.tests@));
    }
    s.append("};\n\nint main() {\nfor (int i = 0; i < ");
    let count = u64_to_dec(m as u64);
    s.append(count.as_str());
    s.append(
        "; i++) {\nif (setjmp(jmpbuf) == 0) {\ntests[i].test();\nprintf(\"Test `%s` passed\\n\", tests[i].name);\n} else {\nprintf(\"Test `%s` failed: %s\\n\", tests[i].name, error_msg);\n}\n}\nreturn 0;\n}\n",
    );
    proof {
        assert(s@ =~= spec_runner_source(strs_view(tests.test_files@), strs_view(tests.tests@)));
    }
    s
}

} // verus!
