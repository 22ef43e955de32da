//! The dependency scanner: walks an in-memory source tree along `#include`
//! directives, collecting one unit per project-local header/source pair and
//! one opaque marker per system header.
//!
//! The tree is handed in as plain values (directory, file name, lines), with
//! a directory table standing for the file system's canonicalization; the
//! surrounding program reads the disk and fills both in.  The scan itself is
//! pinned to a spec-level twin of the recursion, so its result is a function
//! of the tree alone: scanning twice gives the same sorted, duplicate-free
//! unit set.

use vstd::prelude::*;
use vstd::seq_lib::seq_to_set_is_finite;
use vstd::set_lib::lemma_len_subset;
use vstd::string::*;

use crate::paths::{spec_with_c_ext, with_c_ext};
use crate::text::{
    lex_le, starts_with_chars, str_lex_le, str_starts_with, str_trim, substr, trim_chars,
};
use crate::text::{last_pos_of, str_rfind};

verus! {

/// One include target: a project-local header (with its canonical path) or
/// an opaque system dependency.
#[derive(Debug, Clone, PartialEq, Eq)]
pub enum IncludeType {
    System,
    Local(String),
}

/// A discovered dependency unit.
#[derive(Debug, Clone, PartialEq, Eq)]
pub struct Include {
    pub kind: IncludeType,
}

/// The mathematical value of an [`Include`]: the same two cases over a
/// character sequence.
pub enum IncludeV {
    System,
    Local(Seq<char>),
}

impl View for IncludeType {
    type V = IncludeV;

    open spec fn view(&self) -> IncludeV {
        match self {
            IncludeType::System => IncludeV::System,
            IncludeType::Local(p) => IncludeV::Local(p@),
        }
    }
}

impl View for Include {
    type V = IncludeV;

    open spec fn view(&self) -> IncludeV {
        self.kind@
    }
}

/// The views of a sequence of includes, in order.
pub open spec fn incs_view(v: Seq<Include>) -> Seq<IncludeV> {
    Seq::new(v.len(), |i: int| v[i]@)
}

/// The views of a sequence of strings, in order.
pub open spec fn strs_view(v: Seq<String>) -> Seq<Seq<char>> {
    Seq::new(v.len(), |i: int| v[i]@)
}

/// One file of the source tree: its canonical directory, its bare name, and
/// its text as lines.
#[derive(Debug, Clone)]
pub struct SourceFile {
    pub dir: String,
    pub name: String,
    pub lines: Vec<String>,
}

/// One answer of the file system's canonicalization: joining `rel` onto
/// `base` and resolving `.`, `..` and symbolic links yields `canon`.  An
/// empty `rel` stands for the directory itself.
#[derive(Debug, Clone)]
pub struct DirLink {
    pub base: String,
    pub rel: String,
    pub canon: String,
}

/// The in-memory picture of the source tree that a scan walks.
#[derive(Debug, Clone)]
pub struct SourceTree {
    pub files: Vec<SourceFile>,
    pub links: Vec<DirLink>,
}

/// Why a scan failed, mirroring the scanner's error taxonomy: a referenced
/// file that does not exist, an include whose directory cannot be resolved,
/// and an include line that cannot be parsed.
#[derive(Debug, Clone, PartialEq, Eq)]
pub enum ScanError {
    NotFound { dir: String, name: String },
    PathResolution { dir: String, name: String },
    Malformed { file: String, line: String },
}

/// The mathematical value of a [`ScanError`].
pub enum ScanErrorV {
    NotFound { dir: Seq<char>, name: Seq<char> },
    PathResolution { dir: Seq<char>, name: Seq<char> },
    Malformed { file: Seq<char>, line: Seq<char> },
}

impl View for ScanError {
    type V = ScanErrorV;

    open spec fn view(&self) -> ScanErrorV {
        match self {
            ScanError::NotFound { dir, name } => ScanErrorV::NotFound { dir: dir@, name: name@ },
            ScanError::PathResolution { dir, name } => ScanErrorV::PathResolution {
                dir: dir@,
                name: name@,
            },
            ScanError::Malformed { file, line } => ScanErrorV::Malformed {
                file: file@,
                line: line@,
            },
        }
    }
}

/// What a scan error's rendered message says, for each of the three cases.
pub open spec fn spec_scan_error_message(e: ScanErrorV) -> Seq<char> {
    match e {
        ScanErrorV::NotFound { dir, name } => "Failed to open file: "@ + dir + seq!['/'] + name,
        ScanErrorV::PathResolution { dir, name } => "Included header file `"@ + dir + seq!['/']
            + name + "` not found"@,
        ScanErrorV::Malformed { file, line } => "Malformed include in `"@ + file + "`: "@ + line,
    }
}

impl ScanError {
    /// Renders the error for display, naming the file or include at fault.
    pub fn message(&self) -> (r: String)
        ensures
            r@ == spec_scan_error_message(self@),
    {
        match self {
            ScanError::NotFound { dir, name } => {
                let mut m = String::from_str("Failed to open file: ");
                m.append(dir.as_str());
                m.append("/");
                m.append(name.as_str());
                proof {
                    reveal_strlit("/");
                    assert("/"@ =~= seq!['/']);
                    assert(m@ =~= spec_scan_error_message(self@));
                }
                m
            },
            ScanError::PathResolution { dir, name } => {
                let mut m = String::from_str("Included header file `");
                m.append(dir.as_str());
                m.append("/");
                m.append(name.as_str());
                m.append("` not found");
                proof {
                    reveal_strlit("/");
                    assert("/"@ =~= seq!['/']);
                    assert(m@ =~= spec_scan_error_message(self@));
                }
                m
            },
            ScanError::Malformed { file, line } => {
                let mut m = String::from_str("Malformed include in `");
                m.append(file.as_str());
                m.append("`: ");
                m.append(line.as_str());
                proof {
                    assert(m@ =~= spec_scan_error_message(self@));
                }
                m
            },
        }
    }
}

/// How one line of a source file reads as an include directive.
#[derive(Debug, Clone)]
pub enum ParsedLine {
    NoDirective,
    Malformed,
    Quoted(String),
    Bracketed(String),
}

/// The mathematical value of a [`ParsedLine`].
pub enum ParsedLineV {
    NoDirective,
    Malformed,
    Quoted(Seq<char>),
    Bracketed(Seq<char>),
}

impl View for ParsedLine {
    type V = ParsedLineV;

    open spec fn view(&self) -> ParsedLineV {
        match self {
            ParsedLine::NoDirective => ParsedLineV::NoDirective,
            ParsedLine::Malformed => ParsedLineV::Malformed,
            ParsedLine::Quoted(s) => ParsedLineV::Quoted(s@),
            ParsedLine::Bracketed(s) => ParsedLineV::Bracketed(s@),
        }
    }
}

/// How a line is classified: a line is a candidate directive exactly when it
/// begins with `#include` (leading whitespace is not stripped).  The token
/// after the directive must be `"name"` or `<name>` with a nonempty name;
/// anything else is malformed.
pub open spec fn spec_parse_line(line: Seq<char>) -> ParsedLineV {
    if !starts_with_chars(line, "#include"@) {
        ParsedLineV::NoDirective
    } else {
        let tok = trim_chars(line.skip("#include"@.len() as int));
        if tok.len() <= 2 {
            ParsedLineV::Malformed
        } else if tok[0] == '"' && tok[tok.len() - 1] == '"' {
            ParsedLineV::Quoted(tok.subrange(1, tok.len() - 1))
        } else if tok[0] == '<' && tok[tok.len() - 1] == '>' {
            ParsedLineV::Bracketed(tok.subrange(1, tok.len() - 1))
        } else {
            ParsedLineV::Malformed
        }
    }
}

/// Reads the include token off a line: the delimiter decides between a
/// project-local and a system reference, and a missing or empty token is
/// reported as malformed rather than skipped.
pub fn get_include_from_line(line: &str) -> (r: ParsedLine)
    ensures
        r@ == spec_parse_line(line@),
{
    if !str_starts_with(line, "#include") {
        ParsedLine::NoDirective
    } else {
        proof {
            reveal_strlit("#include");
        }
        let l = line.unicode_len();
        let rest = substr(line, 8, l);
        let tok = str_trim(rest.as_str());
        proof {
            assert(line@.subrange(8, l as int) =~= line@.skip("#include"@.len() as int));
        }
        let tl = tok.unicode_len();
        if tl <= 2 {
            ParsedLine::Malformed
        } else {
            let first = tok.as_str().get_char(0);
            let last_c = tok.as_str().get_char(tl - 1);
            if first == '"' && last_c == '"' {
                ParsedLine::Quoted(substr(tok.as_str(), 1, tl - 1))
            } else if first == '<' && last_c == '>' {
                ParsedLine::Bracketed(substr(tok.as_str(), 1, tl - 1))
            } else {
                ParsedLine::Malformed
            }
        }
    }
}

/// The directory part of an include token, before its last separator; empty
/// when the token is a plain file name.
pub open spec fn spec_include_rel(q: Seq<char>) -> Seq<char> {
    match last_pos_of(q, '/') {
        Some(j) => q.subrange(0, j),
        None => Seq::empty(),
    }
}

/// The file-name part of an include token, after its last separator.
pub open spec fn spec_include_base(q: Seq<char>) -> Seq<char> {
    match last_pos_of(q, '/') {
        Some(j) => q.skip(j + 1),
        None => q,
    }
}

/// Splits an include token into its directory part and its file name.
pub fn split_include_ref(q: &str) -> (r: (String, String))
    ensures
        r.0@ == spec_include_rel(q@),
        r.1@ == spec_include_base(q@),
{
    let l = q.unicode_len();
    match str_rfind(q, '/') {
        Some(j) => {
            let rel = substr(q, 0, j);
            let base = substr(q, j + 1, l);
            proof {
                assert(q@.subrange(j + 1, l as int) =~= q@.skip(j + 1));
            }
            (rel, base)
        },
        None => {
            let base = String::from_str(q);
            let rel = String::new();
            proof {
                assert(rel@ =~= Seq::<char>::empty());
            }
            (rel, base)
        },
    }
}

/// The first file of the tree under the given directory and name, searching
/// from position `i`.
pub open spec fn find_file_from(t: SourceTree, dir: Seq<char>, name: Seq<char>, i: int) -> Option<
    int,
>
    decreases t.files@.len() - i,
    when 0 <= i <= t.files@.len()
{
    if i == t.files@.len() {
        None
    } else if t.files@[i].dir@ == dir && t.files@[i].name@ == name {
        Some(i)
    } else {
        find_file_from(t, dir, name, i + 1)
    }
}

/// The first file of the tree under the given directory and name.
pub open spec fn spec_find_file(t: SourceTree, dir: Seq<char>, name: Seq<char>) -> Option<int> {
    find_file_from(t, dir, name, 0)
}

/// Whether the tree holds a file under the given directory and name.
pub open spec fn spec_has_file(t: SourceTree, dir: Seq<char>, name: Seq<char>) -> bool {
    spec_find_file(t, dir, name) is Some
}

proof fn lemma_find_file_from_props(t: SourceTree, dir: Seq<char>, name: Seq<char>, i: int)
    requires
        0 <= i <= t.files@.len(),
    ensures
        match find_file_from(t, dir, name, i) {
            Some(j) => i <= j < t.files@.len() && t.files@[j].dir@ == dir && t.files@[j].name@
                == name,
            None => true,
        },
    decreases t.files@.len() - i,
{
    if i < t.files@.len() && !(t.files@[i].dir@ == dir && t.files@[i].name@ == name) {
        lemma_find_file_from_props(t, dir, name, i + 1);
    }
}

/// Looks a file up in the tree, returning its index.
pub fn find_file(t: &SourceTree, dir: &str, name: &str) -> (r: Option<usize>)
    ensures
        match r {
            Some(j) => spec_find_file(*t, dir@, name@) == Some(j as int),
            None => spec_find_file(*t, dir@, name@) is None,
        },
{
    let n = t.files.len();
    let mut i: usize = 0;
    while i < n
        invariant
            0 <= i <= n,
            n == t.files@.len(),
            spec_find_file(*t, dir@, name@) == find_file_from(*t, dir@, name@, i as int),
        decreases n - i,
    {
        let f = &t.files[i];
        if str_eq_pair(f.dir.as_str(), f.name.as_str(), dir, name) {
            return Some(i);
        }
        i += 1;
    }
    None
}

fn str_eq_pair(a1: &str, a2: &str, b1: &str, b2: &str) -> (r: bool)
    ensures
        r == (a1@ == b1@ && a2@ == b2@),
{
    let e1 = crate::text::str_eq(a1, b1);
    let e2 = crate::text::str_eq(a2, b2);
    e1 && e2
}

/// Whether a header name has a sibling source file: the same name with a
/// `.c` extension, in the same (resolved) directory.
pub open spec fn spec_has_c_file(t: SourceTree, dir: Seq<char>, name: Seq<char>) -> bool {
    spec_has_file(t, dir, spec_with_c_ext(name))
}

/// Tests for the sibling source file of a header.
pub fn has_c_file(t: &SourceTree, dir: &str, name: &str) -> (r: bool)
    ensures
        r == spec_has_c_file(*t, dir@, name@),
{
    let c_name = with_c_ext(name);
    find_file(t, dir, c_name.as_str()).is_some()
}

/// The first directory-table entry for joining `rel` onto `base`, searching
/// from position `i`.
pub open spec fn find_link_from(t: SourceTree, base: Seq<char>, rel: Seq<char>, i: int) -> Option<
    int,
>
    decreases t.links@.len() - i,
    when 0 <= i <= t.links@.len()
{
    if i == t.links@.len() {
        None
    } else if t.links@[i].base@ == base && t.links@[i].rel@ == rel {
        Some(i)
    } else {
        find_link_from(t, base, rel, i + 1)
    }
}

/// What joining `rel` onto `base` canonicalizes to, if the directory exists.
pub open spec fn spec_resolve_dir(t: SourceTree, base: Seq<char>, rel: Seq<char>) -> Option<
    Seq<char>,
> {
    match find_link_from(t, base, rel, 0) {
        Some(j) => Some(t.links@[j].canon@),
        None => None,
    }
}

/// Resolves an include's directory against the tree's directory table.
pub fn resolve_dir(t: &SourceTree, base: &str, rel: &str) -> (r: Option<String>)
    ensures
        match r {
            Some(c) => spec_resolve_dir(*t, base@, rel@) == Some(c@),
            None => spec_resolve_dir(*t, base@, rel@) is None,
        },
{
    let n = t.links.len();
    let mut i: usize = 0;
    while i < n
        invariant
            0 <= i <= n,
            n == t.links@.len(),
            find_link_from(*t, base@, rel@, 0) == find_link_from(*t, base@, rel@, i as int),
        decreases n - i,
    {
        let lk = &t.links[i];
        if str_eq_pair(lk.base.as_str(), lk.rel.as_str(), base, rel) {
            return Some(lk.canon.clone());
        }
        i += 1;
    }
    None
}

/// The names of the tree's files, in order.
pub open spec fn tree_name_seq(t: SourceTree) -> Seq<Seq<char>> {
    Seq::new(t.files@.len(), |i: int| t.files@[i].name@)
}

/// The set of file names that occur in the tree.
pub open spec fn tree_names(t: SourceTree) -> Set<Seq<char>> {
    tree_name_seq(t).to_set()
}

/// How many of the tree's file names a scan has not visited yet: the
/// scanner's termination measure.  Every recursion into a file strikes one
/// name off, and nothing is ever struck twice.
pub open spec fn remaining(t: SourceTree, visited: Seq<Seq<char>>) -> nat {
    tree_names(t).difference(visited.to_set()).len()
}

proof fn lemma_tree_names_finite(t: SourceTree)
    ensures
        tree_names(t).finite(),
{
    seq_to_set_is_finite(tree_name_seq(t));
}

proof fn lemma_remaining_push_lt(t: SourceTree, v: Seq<Seq<char>>, name: Seq<char>)
    requires
        tree_names(t).contains(name),
        !v.contains(name),
    ensures
        remaining(t, v.push(name)) < remaining(t, v),
{
    lemma_tree_names_finite(t);
    v.lemma_push_to_set_commute(name);
    assert(!v.to_set().contains(name));
    tree_names(t).lemma_set_insert_diff_decreases(v.to_set(), name);
}

proof fn lemma_remaining_app_le(t: SourceTree, v: Seq<Seq<char>>, a: Seq<Seq<char>>)
    ensures
        remaining(t, v + a) <= remaining(t, v),
{
    lemma_tree_names_finite(t);
    let d_small = tree_names(t).difference((v + a).to_set());
    let d_big = tree_names(t).difference(v.to_set());
    assert forall|x: Seq<char>| d_small.contains(x) implies d_big.contains(x) by {
        if v.contains(x) {
            let w = choose|k: int| 0 <= k < v.len() && v[k] == x;
            assert((v + a)[w] == x);
            assert((v + a).contains(x));
        }
    }
    assert(d_small.subset_of(d_big));
    assert(d_big.subset_of(tree_names(t)));
    lemma_len_subset(d_big, tree_names(t));
    lemma_len_subset(d_small, d_big);
}

/// The spec-level scan of one file: short-circuits on an already-visited
/// name, fails when the file is missing from the tree, and otherwise scans
/// its lines.  Returns the units found and the names newly marked visited,
/// in order.
pub open spec fn scan_file_s(
    t: SourceTree,
    dir: Seq<char>,
    name: Seq<char>,
    visited: Seq<Seq<char>>,
) -> Result<(Seq<IncludeV>, Seq<Seq<char>>), ScanErrorV>
    decreases remaining(t, visited), 0int, 0int,
    via scan_file_s_dec
{
    if visited.contains(name) {
        Ok((Seq::<IncludeV>::empty(), Seq::<Seq<char>>::empty()))
    } else {
        match spec_find_file(t, dir, name) {
            None => Err(ScanErrorV::NotFound { dir, name }),
            Some(fi) => match scan_lines_s(
                t,
                dir,
                name,
                t.files@[fi].lines@,
                0,
                visited.push(name),
            ) {
                Ok(p) => Ok((p.0, seq![name] + p.1)),
                Err(e) => Err(e),
            },
        }
    }
}

/// The spec-level scan of a file's lines from position `i` on, under the
/// given directory; `fname` only names the file in malformed-line errors.
pub open spec fn scan_lines_s(
    t: SourceTree,
    dir: Seq<char>,
    fname: Seq<char>,
    lines: Seq<String>,
    i: int,
    visited: Seq<Seq<char>>,
) -> Result<(Seq<IncludeV>, Seq<Seq<char>>), ScanErrorV>
    decreases remaining(t, visited), 1int, lines.len() - i,
    via scan_lines_s_dec
{
    if i < 0 || i >= lines.len() {
        Ok((Seq::<IncludeV>::empty(), Seq::<Seq<char>>::empty()))
    } else {
        match spec_parse_line(lines[i]@) {
            ParsedLineV::NoDirective => scan_lines_s(t, dir, fname, lines, i + 1, visited),
            ParsedLineV::Malformed => Err(
                ScanErrorV::Malformed { file: fname, line: lines[i]@ },
            ),
            ParsedLineV::Bracketed(b) => {
                if visited.contains(b) {
                    scan_lines_s(t, dir, fname, lines, i + 1, visited)
                } else {
                    match scan_lines_s(t, dir, fname, lines, i + 1, visited.push(b)) {
                        Ok(p) => Ok((seq![IncludeV::System] + p.0, seq![b] + p.1)),
                        Err(e) => Err(e),
                    }
                }
            },
            ParsedLineV::Quoted(q) => {
                if visited.contains(q) {
                    scan_lines_s(t, dir, fname, lines, i + 1, visited)
                } else {
                    let rel = spec_include_rel(q);
                    let base = spec_include_base(q);
                    match spec_resolve_dir(t, dir, rel) {
                        None => Err(ScanErrorV::PathResolution { dir, name: base }),
                        Some(canon) => {
                            if !spec_has_c_file(t, canon, base) {
                                if visited.contains(base) {
                                    scan_lines_s(t, dir, fname, lines, i + 1, visited)
                                } else {
                                    match scan_lines_s(
                                        t,
                                        dir,
                                        fname,
                                        lines,
                                        i + 1,
                                        visited.push(base),
                                    ) {
                                        Ok(p) => Ok((p.0, seq![base] + p.1)),
                                        Err(e) => Err(e),
                                    }
                                }
                            } else {
                                let unit = IncludeV::Local(canon + seq!['/'] + base);
                                match scan_file_s(t, canon, base, visited) {
                                    Err(e) => Err(e),
                                    Ok(p1) => match scan_file_s(
                                        t,
                                        canon,
                                        spec_with_c_ext(base),
                                        visited + p1.1,
                                    ) {
                                        Err(e) => Err(e),
                                        Ok(p2) => match scan_lines_s(
                                            t,
                                            dir,
                                            fname,
                                            lines,
                                            i + 1,
                                            visited + p1.1 + p2.1,
                                        ) {
                                            Err(e) => Err(e),
                                            Ok(p3) => Ok(
                                                (
                                                    seq![unit] + p1.0 + p2.0 + p3.0,
                                                    p1.1 + p2.1 + p3.1,
                                                ),
                                            ),
                                        },
                                    },
                                }
                            }
                        },
                    }
                }
            },
        }
    }
}

#[via_fn]
proof fn scan_file_s_dec(t: SourceTree, dir: Seq<char>, name: Seq<char>, visited: Seq<Seq<char>>) {
    if !visited.contains(name) {
        match spec_find_file(t, dir, name) {
            Some(fi) => {
                lemma_find_file_from_props(t, dir, name, 0);
                assert(tree_name_seq(t)[fi] == name);
                assert(tree_name_seq(t).contains(name));
                assert(tree_names(t).contains(name));
                lemma_remaining_push_lt(t, visited, name);
            },
            None => {},
        }
    }
}

#[via_fn]
proof fn scan_lines_s_dec(
    t: SourceTree,
    dir: Seq<char>,
    fname: Seq<char>,
    lines: Seq<String>,
    i: int,
    visited: Seq<Seq<char>>,
) {
    assert forall|a: Seq<Seq<char>>| #[trigger]
        remaining(t, visited + a) <= remaining(t, visited) by {
        lemma_remaining_app_le(t, visited, a);
    }
    assert forall|x: Seq<char>| #[trigger]
        remaining(t, visited.push(x)) <= remaining(t, visited) by {
        assert(visited.push(x) =~= visited + seq![x]);
        lemma_remaining_app_le(t, visited, seq![x]);
    }
    assert forall|a: Seq<Seq<char>>, b: Seq<Seq<char>>| #[trigger]
        remaining(t, visited + a + b) <= remaining(t, visited) by {
        assert(visited + a + b =~= visited + (a + b));
        lemma_remaining_app_le(t, visited, a + b);
    }
}

fn vec_contains_string(v: &Vec<String>, x: &str) -> (r: bool)
    ensures
        r == strs_view(v@).contains(x@),
{
    let n = v.len();
    let mut i: usize = 0;
    while i < n
        invariant
            0 <= i <= n,
            n == v@.len(),
            forall|k: int| 0 <= k < i ==> strs_view(v@)[k] != x@,
        decreases n - i,
    {
        if crate::text::str_eq(v[i].as_str(), x) {
            proof {
                assert(strs_view(v@)[i as int] == x@);
            }
            return true;
        }
        i += 1;
    }
    false
}

fn scan_file_x(tree: &SourceTree, dir: &str, name: String, visited: Vec<String>) -> (r: Result<
    (Vec<Include>, Vec<String>),
    ScanError,
>)
    ensures
        ({
            let s = scan_file_s(*tree, dir@, name@, strs_view(visited@));
            match r {
                Ok(p) => match s {
                    Ok(sp) => incs_view(p.0@) == sp.0 && strs_view(p.1@) == strs_view(visited@)
                        + sp.1,
                    Err(_) => false,
                },
                Err(e) => match s {
                    Ok(_) => false,
                    Err(se) => e@ == se,
                },
            }
        }),
    decreases remaining(*tree, strs_view(visited@)), 0int, 0int,
{
    let ghost v0 = strs_view(visited@);
    if vec_contains_string(&visited, name.as_str()) {
        proof {
            assert(incs_view(Seq::<Include>::empty()) =~= Seq::<IncludeV>::empty());
            assert(strs_view(Seq::<String>::empty()) =~= Seq::<Seq<char>>::empty());
            assert(v0 + Seq::<Seq<char>>::empty() =~= v0);
        }
        return Ok((Vec::new(), visited));
    }
    let mut visited = visited;
    visited.push(name.clone());
    proof {
        assert(strs_view(visited@) =~= v0.push(name@));
        assert(v0.push(name@) =~= v0 + seq![name@]);
        lemma_remaining_app_le(*tree, v0, seq![name@]);
    }
    match find_file(tree, dir, name.as_str()) {
        None => Err(ScanError::NotFound { dir: String::from_str(dir), name }),
        Some(fi) => {
            proof {
                lemma_find_file_from_props(*tree, dir@, name@, 0);
                assert(tree_name_seq(*tree)[fi as int] == name@);
                assert(tree_name_seq(*tree).contains(name@));
                assert(tree_names(*tree).contains(name@));
                lemma_remaining_push_lt(*tree, v0, name@);
            }
            let f = &tree.files[fi];
            let res = scan_lines_x(tree, dir, &name, &f.lines, 0, visited);
            match res {
                Ok(p) => {
                    proof {
                        let s_lines = scan_lines_s(
                            *tree,
                            dir@,
                            name@,
                            f.lines@,
                            0,
                            v0.push(name@),
                        );
                        let sp = s_lines->Ok_0;
                        assert(strs_view(p.1@) =~= v0 + (seq![name@] + sp.1));
                    }
                    Ok(p)
                },
                Err(e) => Err(e),
            }
        },
    }
}

fn scan_lines_x(
    tree: &SourceTree,
    dir: &str,
    fname: &String,
    lines: &Vec<String>,
    i: usize,
    visited: Vec<String>,
) -> (r: Result<(Vec<Include>, Vec<String>), ScanError>)
    requires
        i <= lines@.len(),
    ensures
        ({
            let s = scan_lines_s(*tree, dir@, fname@, lines@, i as int, strs_view(visited@));
            match r {
                Ok(p) => match s {
                    Ok(sp) => incs_view(p.0@) == sp.0 && strs_view(p.1@) == strs_view(visited@)
                        + sp.1,
                    Err(_) => false,
                },
                Err(e) => match s {
                    Ok(_) => false,
                    Err(se) => e@ == se,
                },
            }
        }),
    decreases remaining(*tree, strs_view(visited@)), 1int, lines@.len() - i,
{
    let ghost v0 = strs_view(visited@);
    if i >= lines.len() {
        proof {
            assert(incs_view(Seq::<Include>::empty()) =~= Seq::<IncludeV>::empty());
            assert(v0 + Seq::<Seq<char>>::empty() =~= v0);
        }
        return Ok((Vec::new(), visited));
    }
    let line = &lines[i];
    let parsed = get_include_from_line(line.as_str());
    match parsed {
        ParsedLine::NoDirective => scan_lines_x(tree, dir, fname, lines, i + 1, visited),
        ParsedLine::Malformed => Err(
            ScanError::Malformed { file: fname.clone(), line: line.clone() },
        ),
        ParsedLine::Bracketed(b) => {
            if vec_contains_string(&visited, b.as_str()) {
                scan_lines_x(tree, dir, fname, lines, i + 1, visited)
            } else {
                let mut visited = visited;
                visited.push(b.clone());
                proof {
                    assert(strs_view(visited@) =~= v0.push(b@));
                    assert(v0.push(b@) =~= v0 + seq![b@]);
                    lemma_remaining_app_le(*tree, v0, seq![b@]);
                }
                match scan_lines_x(tree, dir, fname, lines, i + 1, visited) {
                    Ok(p) => {
                        let (incs2, vis2) = p;
                        let mut out: Vec<Include> = Vec::new();
                        out.push(Include { kind: IncludeType::System });
                        let mut rest = incs2;
                        out.append(&mut rest);
                        proof {
                            let s_rest = scan_lines_s(
                                *tree,
                                dir@,
                                fname@,
                                lines@,
                                i + 1,
                                v0.push(b@),
                            );
                            let sp = s_rest->Ok_0;
                            assert(incs_view(out@) =~= seq![IncludeV::System] + sp.0);
                            assert(strs_view(vis2@) =~= v0 + (seq![b@] + sp.1));
                        }
                        Ok((out, vis2))
                    },
                    Err(e) => Err(e),
                }
            }
        },
        ParsedLine::Quoted(q) => {
            if vec_contains_string(&visited, q.as_str()) {
                scan_lines_x(tree, dir, fname, lines, i + 1, visited)
            } else {
                let (rel, base) = split_include_ref(q.as_str());
                match resolve_dir(tree, dir, rel.as_str()) {
                    None => Err(
                        ScanError::PathResolution { dir: String::from_str(dir), name: base },
                    ),
                    Some(canon) => {
                        if !has_c_file(tree, canon.as_str(), base.as_str()) {
                            if vec_contains_string(&visited, base.as_str()) {
                                scan_lines_x(tree, dir, fname, lines, i + 1, visited)
                            } else {
                                let mut visited = visited;
                                visited.push(base.clone());
                                proof {
                                    assert(strs_view(visited@) =~= v0.push(base@));
                                    assert(v0.push(base@) =~= v0 + seq![base@]);
                                    lemma_remaining_app_le(*tree, v0, seq![base@]);
                                }
                                match scan_lines_x(tree, dir, fname, lines, i + 1, visited) {
                                    Ok(p) => {
                                        proof {
                                            let s_rest = scan_lines_s(
                                                *tree,
                                                dir@,
                                                fname@,
                                                lines@,
                                                i + 1,
                                                v0.push(base@),
                                            );
                                            let sp = s_rest->Ok_0;
                                            assert(strs_view(p.1@) =~= v0 + (seq![base@] + sp.1));
                                        }
                                        Ok(p)
                                    },
                                    Err(e) => Err(e),
                                }
                            }
                        } else {
                            let path = crate::text::join_path(canon.as_str(), base.as_str());
                            let mut out: Vec<Include> = Vec::new();
                            out.push(Include { kind: IncludeType::Local(path) });
                            match scan_file_x(tree, canon.as_str(), base.clone(), visited) {
                                Err(e) => Err(e),
                                Ok(p1) => {
                                    let (inc1, vis1) = p1;
                                    let ghost s1 = scan_file_s(*tree, canon@, base@, v0)->Ok_0;
                                    let cbase = with_c_ext(base.as_str());
                                    proof {
                                        lemma_remaining_app_le(*tree, v0, s1.1);
                                    }
                                    match scan_file_x(tree, canon.as_str(), cbase, vis1) {
                                        Err(e) => Err(e),
                                        Ok(p2) => {
                                            let (inc2, vis2) = p2;
                                            let ghost s2 = scan_file_s(
                                                *tree,
                                                canon@,
                                                spec_with_c_ext(base@),
                                                v0 + s1.1,
                                            )->Ok_0;
                                            proof {
                                                assert(strs_view(vis2@) =~= v0 + (s1.1 + s2.1));
                                                lemma_remaining_app_le(*tree, v0, s1.1 + s2.1);
                                                assert(v0 + (s1.1 + s2.1) =~= v0 + s1.1 + s2.1);
                                            }
                                            match scan_lines_x(
                                                tree,
                                                dir,
                                                fname,
                                                lines,
                                                i + 1,
                                                vis2,
                                            ) {
                                                Err(e) => Err(e),
                                                Ok(p3) => {
                                                    let (inc3, vis3) = p3;
                                                    let ghost s3 = scan_lines_s(
                                                        *tree,
                                                        dir@,
                                                        fname@,
                                                        lines@,
                                                        i + 1,
                                                        v0 + s1.1 + s2.1,
                                                    )->Ok_0;
                                                    let mut rest1 = inc1;
                                                    let mut rest2 = inc2;
                                                    let mut rest3 = inc3;
                                                    out.append(&mut rest1);
                                                    out.append(&mut rest2);
                                                    out.append(&mut rest3);
                                                    proof {
                                                        let unit = IncludeV::Local(
                                                            canon@ + seq!['/'] + base@,
                                                        );
                                                        assert(incs_view(out@) =~= seq![unit]
                                                            + s1.0 + s2.0 + s3.0);
                                                        assert(strs_view(vis3@) =~= v0 + (s1.1
                                                            + s2.1 + s3.1));
                                                    }
                                                    Ok((out, vis3))
                                                },
                                            }
                                        },
                                    }
                                },
                            }
                        }
                    },
                }
            }
        },
    }
}

/// The total order on units: system markers first, then local units by
/// their canonical path.
pub open spec fn include_le(a: IncludeV, b: IncludeV) -> bool {
    match (a, b) {
        (IncludeV::System, _) => true,
        (IncludeV::Local(_), IncludeV::System) => false,
        (IncludeV::Local(p), IncludeV::Local(q)) => lex_le(p, q),
    }
}

/// [`include_le`] is total.
pub proof fn lemma_include_le_total(a: IncludeV, b: IncludeV)
    ensures
        include_le(a, b) || include_le(b, a),
{
    match (a, b) {
        (IncludeV::Local(p), IncludeV::Local(q)) => crate::text::lemma_lex_le_total(p, q),
        _ => {},
    }
}

/// [`include_le`] is transitive.
pub proof fn lemma_include_le_trans(a: IncludeV, b: IncludeV, c: IncludeV)
    ensures
        include_le(a, b) && include_le(b, c) ==> include_le(a, c),
{
    match (a, b) {
        (IncludeV::Local(p), IncludeV::Local(q)) => match c {
            IncludeV::Local(s) => {
                if lex_le(p, q) && lex_le(q, s) {
                    crate::text::lemma_lex_le_trans(p, q, s);
                }
            },
            _ => {},
        },
        _ => {},
    }
}

fn include_le_exec(a: &Include, b: &Include) -> (r: bool)
    ensures
        r == include_le(a@, b@),
{
    match (&a.kind, &b.kind) {
        (IncludeType::System, _) => true,
        (IncludeType::Local(_), IncludeType::System) => false,
        (IncludeType::Local(p), IncludeType::Local(q)) => str_lex_le(p.as_str(), q.as_str()),
    }
}

fn include_eq_exec(a: &Include, b: &Include) -> (r: bool)
    ensures
        r == (a@ == b@),
{
    match (&a.kind, &b.kind) {
        (IncludeType::System, IncludeType::System) => true,
        (IncludeType::Local(p), IncludeType::Local(q)) => *p == *q,
        _ => false,
    }
}

/// `x` placed before the first element of `s` that it precedes or equals.
pub open spec fn spec_insert_inc(s: Seq<IncludeV>, x: IncludeV) -> Seq<IncludeV>
    decreases s.len(),
{
    if s.len() == 0 {
        seq![x]
    } else if include_le(x, s[0]) {
        seq![x] + s
    } else {
        seq![s[0]] + spec_insert_inc(s.drop_first(), x)
    }
}

/// Insertion sort of a unit sequence under [`include_le`].
pub open spec fn spec_sort_incs(s: Seq<IncludeV>) -> Seq<IncludeV>
    decreases s.len(),
{
    if s.len() == 0 {
        Seq::<IncludeV>::empty()
    } else {
        spec_insert_inc(spec_sort_incs(s.drop_first()), s.first())
    }
}

/// `s` with runs of equal neighbours collapsed to their first element.
pub open spec fn spec_dedup_incs(s: Seq<IncludeV>) -> Seq<IncludeV>
    decreases s.len(),
{
    if s.len() == 0 {
        Seq::<IncludeV>::empty()
    } else {
        let d = spec_dedup_incs(s.drop_last());
        if d.len() > 0 && d.last() == s.last() {
            d
        } else {
            d.push(s.last())
        }
    }
}

fn find_insert_pos(out: &Vec<Include>, x: &Include) -> (p: usize)
    ensures
        p <= out@.len(),
        forall|k: int| 0 <= k < p ==> !include_le(x@, incs_view(out@)[k]),
        p < out@.len() ==> include_le(x@, incs_view(out@)[p as int]),
{
    let n = out.len();
    let mut p: usize = 0;
    while p < n
        invariant
            0 <= p <= n,
            n == out@.len(),
            forall|k: int| 0 <= k < p ==> !include_le(x@, incs_view(out@)[k]),
        decreases n - p,
    {
        if include_le_exec(x, &out[p]) {
            proof {
                assert(incs_view(out@)[p as int] == out@[p as int]@);
            }
            return p;
        }
        proof {
            assert(incs_view(out@)[p as int] == out@[p as int]@);
        }
        p += 1;
    }
    p
}

proof fn lemma_spec_insert_at(s: Seq<IncludeV>, x: IncludeV, p: int)
    requires
        0 <= p <= s.len(),
        forall|k: int| 0 <= k < p ==> !include_le(x, s[k]),
        p < s.len() ==> include_le(x, s[p]),
    ensures
        spec_insert_inc(s, x) == s.subrange(0, p) + seq![x] + s.skip(p),
    decreases p,
{
    if p == 0 {
        if s.len() == 0 {
            assert(spec_insert_inc(s, x) =~= s.subrange(0, 0) + seq![x] + s.skip(0));
        } else {
            assert(include_le(x, s[0]));
            assert(spec_insert_inc(s, x) =~= s.subrange(0, 0) + seq![x] + s.skip(0));
        }
    } else {
        assert(!include_le(x, s[0]));
        let d = s.drop_first();
        assert(forall|k: int| 0 <= k < p - 1 ==> !include_le(x, d[k]));
        lemma_spec_insert_at(d, x, p - 1);
        assert(seq![s[0]] + (d.subrange(0, p - 1) + seq![x] + d.skip(p - 1)) =~= s.subrange(0, p)
            + seq![x] + s.skip(p));
        assert(seq![s[0]] + (d.subrange(0, p - 1) + seq![x] + d.skip(p - 1)) =~= seq![s[0]]
            + d.subrange(0, p - 1) + seq![x] + d.skip(p - 1));
    }
}

fn insert_sorted(out: &mut Vec<Include>, x: Include)
    ensures
        incs_view(final(out)@) == spec_insert_inc(incs_view(old(out)@), x@),
{
    let p = find_insert_pos(out, &x);
    let ghost s0 = incs_view(out@);
    let ghost xv = x@;
    out.insert(p, x);
    proof {
        lemma_spec_insert_at(s0, xv, p as int);
        assert(incs_view(out@) =~= s0.subrange(0, p as int) + seq![xv] + s0.skip(p as int));
    }
}

/// Sorts a unit list under [`include_le`], pinning the exact result.
pub fn sort_includes(v: Vec<Include>) -> (r: Vec<Include>)
    ensures
        incs_view(r@) == spec_sort_incs(incs_view(v@)),
{
    let ghost ov = incs_view(v@);
    let mut v = v;
    let mut out: Vec<Include> = Vec::new();
    proof {
        assert(incs_view(out@) =~= Seq::<IncludeV>::empty());
        assert(v@.subrange(0, v@.len() as int) =~= v@);
    }
    while v.len() > 0
        invariant
            v@.len() <= ov.len(),
            incs_view(v@) =~= ov.subrange(0, v@.len() as int),
            incs_view(out@) == spec_sort_incs(ov.skip(v@.len() as int)),
        decreases v@.len(),
    {
        let ghost n = v@.len() as int;
        let ghost vpre = v@;
        let x = match v.pop() {
            Some(x) => x,
            None => {
                proof {
                    assert(false);
                }
                vstd::pervasive::unreached()
            },
        };
        proof {
            assert(x == vpre.last());
            assert(x@ == incs_view(vpre)[n - 1]);
            assert(incs_view(vpre)[n - 1] == ov.subrange(0, n)[n - 1]);
            assert(x@ == ov[n - 1]);
            assert(v@ == vpre.drop_last());
            assert forall|k: int| 0 <= k < n - 1 implies incs_view(v@)[k] == ov.subrange(
                0,
                n - 1,
            )[k] by {
                assert(incs_view(v@)[k] == v@[k]@);
                assert(v@[k] == vpre[k]);
                assert(incs_view(vpre)[k] == ov.subrange(0, n)[k]);
            }
            assert(incs_view(v@) =~= ov.subrange(0, n - 1));
        }
        insert_sorted(&mut out, x);
        proof {
            assert(ov.skip(n - 1).drop_first() =~= ov.skip(n));
            assert(ov.skip(n - 1)[0] == ov[n - 1]);
            assert(spec_sort_incs(ov.skip(n - 1)) == spec_insert_inc(
                spec_sort_incs(ov.skip(n)),
                ov[n - 1],
            ));
        }
    }
    proof {
        assert(ov.skip(0) =~= ov);
    }
    out
}

/// Removes equal neighbours from a unit list, pinning the exact result.
pub fn dedup_includes(v: Vec<Include>) -> (r: Vec<Include>)
    ensures
        incs_view(r@) == spec_dedup_incs(incs_view(v@)),
{
    let ghost ov = incs_view(v@);
    let mut v = v;
    let mut out: Vec<Include> = Vec::new();
    let ghost mut done: int = 0;
    proof {
        assert(incs_view(out@) =~= Seq::<IncludeV>::empty());
        assert(ov.subrange(0, 0) =~= Seq::<IncludeV>::empty());
        assert(incs_view(v@) =~= ov.skip(0));
    }
    while v.len() > 0
        invariant
            0 <= done <= ov.len(),
            done + v@.len() == ov.len(),
            incs_view(v@) =~= ov.skip(done),
            incs_view(out@) == spec_dedup_incs(ov.subrange(0, done)),
        decreases v@.len(),
    {
        let ghost vpre = v@;
        let x = v.remove(0);
        proof {
            assert(x == vpre[0]);
            assert(x@ == incs_view(vpre)[0]);
            assert(incs_view(vpre)[0] == ov.skip(done)[0]);
            assert(x@ == ov[done]);
            assert forall|k: int| 0 <= k < v@.len() implies incs_view(v@)[k] == ov.skip(
                done + 1,
            )[k] by {
                assert(incs_view(v@)[k] == v@[k]@);
                assert(v@[k] == vpre[k + 1]);
                assert(incs_view(vpre)[k + 1] == ov.skip(done)[k + 1]);
            }
            assert(incs_view(v@) =~= ov.skip(done + 1));
            assert(ov.subrange(0, done + 1).drop_last() =~= ov.subrange(0, done));
            assert(ov.subrange(0, done + 1).last() == ov[done]);
        }
        let keep = if out.len() == 0 {
            true
        } else {
            proof {
                assert(incs_view(out@)[out@.len() - 1] == out@[out@.len() - 1]@);
            }
            !include_eq_exec(&out[out.len() - 1], &x)
        };
        if keep {
            let ghost o0 = incs_view(out@);
            out.push(x);
            proof {
                assert(incs_view(out@) =~= o0.push(ov[done]));
            }
        }
        proof {
            done = done + 1;
        }
    }
    proof {
        assert(ov.subrange(0, ov.len() as int) =~= ov);
    }
    out
}

/// Scans one file of the tree, sharing the caller's visited-name list; this
/// is the recursive core that [`get_includes`] drives from the entry file.
/// The result and the growth of `already_included` are exactly those of the
/// spec-level scan [`scan_file_s`].
pub fn get_includes_from_file(
    tree: &SourceTree,
    path: &str,
    name: String,
    already_included: &mut Vec<String>,
) -> (r: Result<Vec<Include>, ScanError>)
    ensures
        ({
            let s = scan_file_s(*tree, path@, name@, strs_view(old(already_included)@));
            match r {
                Ok(incs) => match s {
                    Ok(sp) => incs_view(incs@) == sp.0 && strs_view(final(already_included)@)
                        == strs_view(old(already_included)@) + sp.1,
                    Err(_) => false,
                },
                Err(e) => match s {
                    Ok(_) => false,
                    Err(se) => e@ == se,
                },
            }
        }),
{
    let mut tmp: Vec<String> = Vec::new();
    core::mem::swap(already_included, &mut tmp);
    match scan_file_x(tree, path, name, tmp) {
        Ok(p) => {
            let (incs, vis) = p;
            *already_included = vis;
            Ok(incs)
        },
        Err(e) => Err(e),
    }
}

/// What a whole scan returns: the entry file's transitive units, sorted and
/// deduplicated, or the first error met.
pub open spec fn spec_get_includes(t: SourceTree, path: Seq<char>) -> Result<
    Seq<IncludeV>,
    ScanErrorV,
> {
    match scan_file_s(t, path, "main.c"@, Seq::<Seq<char>>::empty()) {
        Ok(p) => Ok(spec_dedup_incs(spec_sort_incs(p.0))),
        Err(e) => Err(e),
    }
}

/// Scans the tree from `main.c` in the given directory and returns the
/// deterministic unit set: sorted under [`include_le`] and free of equal
/// neighbours.  Running it twice on one tree gives equal results, since the
/// value is pinned to [`spec_get_includes`].
pub fn get_includes(tree: &SourceTree, path: String) -> (r: Result<Vec<Include>, ScanError>)
    ensures
        ({
            let s = spec_get_includes(*tree, path@);
            match r {
                Ok(incs) => match s {
                    Ok(sv) => incs_view(incs@) == sv && incs_sorted(incs_view(incs@))
                        && incs_view(incs@).no_duplicates(),
                    Err(_) => false,
                },
                Err(e) => match s {
                    Ok(_) => false,
                    Err(se) => e@ == se,
                },
            }
        }),
{
    proof {
        lemma_get_includes_sorted_unique(*tree, path@);
    }
    let visited: Vec<String> = Vec::new();
    proof {
        assert(strs_view(visited@) =~= Seq::<Seq<char>>::empty());
    }
    match scan_file_x(tree, path.as_str(), String::from_str("main.c"), visited) {
        Err(e) => Err(e),
        Ok(p) => {
            let (incs, _vis) = p;
            let sorted = sort_includes(incs);
            let out = dedup_includes(sorted);
            Ok(out)
        },
    }
}

/// A unit sequence in nondecreasing order under [`include_le`].
pub open spec fn incs_sorted(s: Seq<IncludeV>) -> bool {
    forall|i: int, j: int| 0 <= i < j < s.len() ==> include_le(#[trigger] s[i], #[trigger] s[j])
}

/// [`include_le`] is antisymmetric.
pub proof fn lemma_include_le_antisym(a: IncludeV, b: IncludeV)
    requires
        include_le(a, b),
        include_le(b, a),
    ensures
        a == b,
{
    match (a, b) {
        (IncludeV::Local(p), IncludeV::Local(q)) => {
            crate::text::lemma_lex_le_antisym(p, q);
        },
        _ => {},
    }
}

proof fn lemma_insert_inc_props(s: Seq<IncludeV>, x: IncludeV)
    requires
        incs_sorted(s),
    ensures
        incs_sorted(spec_insert_inc(s, x)),
        spec_insert_inc(s, x).len() == s.len() + 1,
        forall|y: IncludeV| #[trigger]
            spec_insert_inc(s, x).contains(y) <==> s.contains(y) || y == x,
    decreases s.len(),
{
    let r = spec_insert_inc(s, x);
    if s.len() == 0 {
        assert(r =~= seq![x]);
        assert(r[0] == x);
        assert(r.contains(x));
    } else if include_le(x, s[0]) {
        assert(r =~= seq![x] + s);
        assert forall|i: int, j: int| 0 <= i < j < r.len() implies include_le(r[i], r[j]) by {
            if i == 0 {
                if j == 1 {
                    assert(r[j] == s[0]);
                } else {
                    lemma_include_le_trans(x, s[0], s[j - 1]);
                }
            }
        }
        assert forall|y: IncludeV| #[trigger] r.contains(y) implies s.contains(y) || y == x by {
            let k = choose|k: int| 0 <= k < r.len() && r[k] == y;
            if k > 0 {
                assert(s[k - 1] == y);
            }
        }
        assert forall|y: IncludeV| s.contains(y) || y == x implies #[trigger] r.contains(y) by {
            if y == x {
                assert(r[0] == y);
            } else {
                let k = choose|k: int| 0 <= k < s.len() && s[k] == y;
                assert(r[k + 1] == y);
            }
        }
    } else {
        let d = s.drop_first();
        assert(incs_sorted(d)) by {
            assert forall|i: int, j: int| 0 <= i < j < d.len() implies include_le(d[i], d[j]) by {
                assert(s[i + 1] == d[i]);
                assert(s[j + 1] == d[j]);
            }
        }
        lemma_insert_inc_props(d, x);
        let rd = spec_insert_inc(d, x);
        assert(r =~= seq![s[0]] + rd);
        lemma_include_le_total(x, s[0]);
        assert(include_le(s[0], x));
        assert forall|i: int, j: int| 0 <= i < j < r.len() implies include_le(r[i], r[j]) by {
            if i == 0 {
                assert(rd.contains(r[j])) by {
                    assert(rd[j - 1] == r[j]);
                }
                assert(d.contains(r[j]) || r[j] == x);
                if r[j] == x {
                } else {
                    let k = choose|k: int| 0 <= k < d.len() && d[k] == r[j];
                    assert(s[k + 1] == d[k]);
                    assert(include_le(s[0], s[k + 1]));
                }
            } else {
                assert(rd[i - 1] == r[i]);
                assert(rd[j - 1] == r[j]);
            }
        }
        assert forall|y: IncludeV| #[trigger] r.contains(y) implies s.contains(y) || y == x by {
            let k = choose|k: int| 0 <= k < r.len() && r[k] == y;
            if k == 0 {
                assert(s[0] == y);
            } else {
                assert(rd[k - 1] == y);
                assert(rd.contains(y));
                if d.contains(y) {
                    let k2 = choose|k2: int| 0 <= k2 < d.len() && d[k2] == y;
                    assert(s[k2 + 1] == y);
                }
            }
        }
        assert forall|y: IncludeV| s.contains(y) || y == x implies #[trigger] r.contains(y) by {
            if y == x {
                assert(rd.contains(y));
                let k = choose|k: int| 0 <= k < rd.len() && rd[k] == y;
                assert(r[k + 1] == y);
            } else {
                let k = choose|k: int| 0 <= k < s.len() && s[k] == y;
                if k == 0 {
                    assert(r[0] == y);
                } else {
                    assert(d[k - 1] == y);
                    assert(d.contains(y));
                    assert(rd.contains(y));
                    let k2 = choose|k2: int| 0 <= k2 < rd.len() && rd[k2] == y;
                    assert(r[k2 + 1] == y);
                }
            }
        }
    }
}

proof fn lemma_sort_incs_props(s: Seq<IncludeV>)
    ensures
        incs_sorted(spec_sort_incs(s)),
        spec_sort_incs(s).len() == s.len(),
        forall|y: IncludeV| #[trigger] spec_sort_incs(s).contains(y) <==> s.contains(y),
    decreases s.len(),
{
    if s.len() > 0 {
        let d = s.drop_first();
        lemma_sort_incs_props(d);
        lemma_insert_inc_props(spec_sort_incs(d), s.first());
        assert forall|y: IncludeV| #[trigger] spec_sort_incs(s).contains(y) implies s.contains(
            y,
        ) by {
            if d.contains(y) {
                let k = choose|k: int| 0 <= k < d.len() && d[k] == y;
                assert(s[k + 1] == y);
            } else {
                assert(y == s.first());
                assert(s[0] == y);
            }
        }
        assert forall|y: IncludeV| s.contains(y) implies #[trigger] spec_sort_incs(s).contains(
            y,
        ) by {
            let k = choose|k: int| 0 <= k < s.len() && s[k] == y;
            if k > 0 {
                assert(d[k - 1] == y);
                assert(d.contains(y));
            }
        }
    }
}

proof fn lemma_dedup_incs_props(s: Seq<IncludeV>)
    requires
        incs_sorted(s),
    ensures
        incs_sorted(spec_dedup_incs(s)),
        spec_dedup_incs(s).no_duplicates(),
        forall|y: IncludeV| #[trigger] spec_dedup_incs(s).contains(y) <==> s.contains(y),
        s.len() > 0 ==> spec_dedup_incs(s).len() > 0 && spec_dedup_incs(s).last() == s.last(),
    decreases s.len(),
{
    let r = spec_dedup_incs(s);
    if s.len() > 0 {
        let sd = s.drop_last();
        assert(incs_sorted(sd)) by {
            assert forall|i: int, j: int| 0 <= i < j < sd.len() implies include_le(
                sd[i],
                sd[j],
            ) by {
                assert(s[i] == sd[i]);
                assert(s[j] == sd[j]);
            }
        }
        lemma_dedup_incs_props(sd);
        let d = spec_dedup_incs(sd);
        let x = s.last();
        if d.len() > 0 && d.last() == x {
            assert(r == d);
            assert forall|y: IncludeV| #[trigger] r.contains(y) implies s.contains(y) by {
                assert(sd.contains(y));
                let k = choose|k: int| 0 <= k < sd.len() && sd[k] == y;
                assert(s[k] == y);
            }
            assert forall|y: IncludeV| s.contains(y) implies #[trigger] r.contains(y) by {
                let k = choose|k: int| 0 <= k < s.len() && s[k] == y;
                if k < sd.len() {
                    assert(sd[k] == y);
                    assert(sd.contains(y));
                } else {
                    assert(y == x);
                    assert(d.contains(d.last()));
                }
            }
        } else {
            assert(r == d.push(x));
            // every element of d sits in sd, so it is at most x; were x itself
            // in d, sortedness and antisymmetry would force it to be d's last
            assert forall|y: IncludeV| d.contains(y) implies include_le(y, x) by {
                assert(sd.contains(y));
                let k = choose|k: int| 0 <= k < sd.len() && sd[k] == y;
                assert(s[k] == y);
                if sd.len() > 0 {
                    assert(include_le(s[k], s[s.len() - 1]) || k == s.len() - 1);
                }
                lemma_include_le_total(y, x);
                if !include_le(y, x) {
                    assert(include_le(s[k], s[s.len() - 1]));
                }
            }
            assert(!d.contains(x)) by {
                if d.contains(x) {
                    let k = choose|k: int| 0 <= k < d.len() && d[k] == x;
                    if k < d.len() - 1 {
                        assert(include_le(d[k], d[d.len() - 1]));
                        assert(d.contains(d.last())) by {
                            assert(d[d.len() - 1] == d.last());
                        }
                        assert(include_le(d.last(), x));
                        lemma_include_le_antisym(d.last(), x);
                    } else {
                        assert(d.last() == x);
                    }
                }
            }
            assert(r.no_duplicates()) by {
                assert forall|i: int, j: int| 0 <= i < j < r.len() implies r[i] != r[j] by {
                    if j < d.len() {
                        assert(d[i] == r[i]);
                        assert(d[j] == r[j]);
                    } else {
                        assert(r[j] == x);
                        assert(d[i] == r[i]);
                        assert(d.contains(r[i]));
                    }
                }
            }
            assert(incs_sorted(r)) by {
                assert forall|i: int, j: int| 0 <= i < j < r.len() implies include_le(
                    r[i],
                    r[j],
                ) by {
                    if j < d.len() {
                        assert(d[i] == r[i]);
                        assert(d[j] == r[j]);
                    } else {
                        assert(r[j] == x);
                        assert(d[i] == r[i]);
                        assert(d.contains(r[i]));
                    }
                }
            }
            assert forall|y: IncludeV| #[trigger] r.contains(y) implies s.contains(y) by {
                let k = choose|k: int| 0 <= k < r.len() && r[k] == y;
                if k < d.len() {
                    assert(d.contains(y)) by {
                        assert(d[k] == y);
                    }
                    assert(sd.contains(y));
                    let k2 = choose|k2: int| 0 <= k2 < sd.len() && sd[k2] == y;
                    assert(s[k2] == y);
                } else {
                    assert(y == x);
                    assert(s[s.len() - 1] == x);
                }
            }
            assert forall|y: IncludeV| s.contains(y) implies #[trigger] r.contains(y) by {
                let k = choose|k: int| 0 <= k < s.len() && s[k] == y;
                if k < sd.len() {
                    assert(sd[k] == y);
                    assert(sd.contains(y));
                    assert(d.contains(y));
                    let k2 = choose|k2: int| 0 <= k2 < d.len() && d[k2] == y;
                    assert(r[k2] == y);
                } else {
                    assert(y == x);
                    assert(r[r.len() - 1] == x);
                }
            }
        }
    }
}

/// Scanning is deterministic and canonical: the unit set is a function of
/// the tree alone — [`get_includes`] pins its result to
/// [`spec_get_includes`], so two scans of one tree return identical lists —
/// and every successful scan is sorted under [`include_le`] and free of
/// duplicates, so each discovered unit appears exactly once however many
/// include directives name it, and a mutually-including pair of headers
/// contributes exactly one unit each.
pub proof fn lemma_get_includes_sorted_unique(t: SourceTree, path: Seq<char>)
    ensures
        match spec_get_includes(t, path) {
            Ok(s) => incs_sorted(s) && s.no_duplicates(),
            Err(_) => true,
        },
{
    match scan_file_s(t, path, "main.c"@, Seq::<Seq<char>>::empty()) {
        Ok(p) => {
            lemma_sort_incs_props(p.0);
            lemma_dedup_incs_props(spec_sort_incs(p.0));
        },
        Err(_) => {},
    }
}

/// An include written with angle brackets never yields a local unit,
/// whatever the tree holds: the line either contributes one system marker
/// (when its name is new) or nothing (when it was already seen), and the
/// scan never consults the tree for it.
pub proof fn lemma_bracketed_include_never_local(
    t: SourceTree,
    dir: Seq<char>,
    fname: Seq<char>,
    lines: Seq<String>,
    i: int,
    visited: Seq<Seq<char>>,
    b: Seq<char>,
)
    requires
        0 <= i < lines.len(),
        spec_parse_line(lines[i]@) == ParsedLineV::Bracketed(b),
    ensures
        scan_lines_s(t, dir, fname, lines, i, visited) == (if visited.contains(b) {
            scan_lines_s(t, dir, fname, lines, i + 1, visited)
        } else {
            match scan_lines_s(t, dir, fname, lines, i + 1, visited.push(b)) {
                Ok(p) => Ok::<_, ScanErrorV>((seq![IncludeV::System] + p.0, seq![b] + p.1)),
                Err(e) => Err(e),
            }
        }),
{
}

/// A unit the scan may report, held against the tree: a system marker says
/// nothing, and a local unit's path must split into a resolved directory
/// and a header name whose sibling source file the tree holds.
pub open spec fn local_unit_sound(t: SourceTree, u: IncludeV) -> bool {
    match u {
        IncludeV::System => true,
        IncludeV::Local(p) => exists|canon: Seq<char>, base: Seq<char>|
            p == canon + seq!['/'] + base && #[trigger] spec_has_c_file(t, canon, base),
    }
}

proof fn lemma_scan_file_locals_sound(
    t: SourceTree,
    dir: Seq<char>,
    name: Seq<char>,
    visited: Seq<Seq<char>>,
)
    ensures
        match scan_file_s(t, dir, name, visited) {
            Ok(p) => forall|k: int| 0 <= k < p.0.len() ==> local_unit_sound(t, #[trigger] p.0[k]),
            Err(_) => true,
        },
    decreases remaining(t, visited), 0int, 0int,
{
    if !visited.contains(name) {
        match spec_find_file(t, dir, name) {
            Some(fi) => {
                lemma_find_file_from_props(t, dir, name, 0);
                assert(tree_name_seq(t)[fi] == name);
                assert(tree_name_seq(t).contains(name));
                assert(tree_names(t).contains(name));
                lemma_remaining_push_lt(t, visited, name);
                lemma_scan_lines_locals_sound(
                    t,
                    dir,
                    name,
                    t.files@[fi].lines@,
                    0,
                    visited.push(name),
                );
            },
            None => {},
        }
    }
}

proof fn lemma_scan_lines_locals_sound(
    t: SourceTree,
    dir: Seq<char>,
    fname: Seq<char>,
    lines: Seq<String>,
    i: int,
    visited: Seq<Seq<char>>,
)
    ensures
        match scan_lines_s(t, dir, fname, lines, i, visited) {
            Ok(p) => forall|k: int| 0 <= k < p.0.len() ==> local_unit_sound(t, #[trigger] p.0[k]),
            Err(_) => true,
        },
    decreases remaining(t, visited), 1int, lines.len() - i,
{
    if i < 0 || i >= lines.len() {
    } else {
        match spec_parse_line(lines[i]@) {
            ParsedLineV::NoDirective => {
                lemma_scan_lines_locals_sound(t, dir, fname, lines, i + 1, visited);
            },
            ParsedLineV::Malformed => {},
            ParsedLineV::Bracketed(b) => {
                if visited.contains(b) {
                    lemma_scan_lines_locals_sound(t, dir, fname, lines, i + 1, visited);
                } else {
                    assert(visited.push(b) =~= visited + seq![b]);
                    lemma_remaining_app_le(t, visited, seq![b]);
                    lemma_scan_lines_locals_sound(t, dir, fname, lines, i + 1, visited.push(b));
                    match scan_lines_s(t, dir, fname, lines, i + 1, visited.push(b)) {
                        Ok(p) => {
                            let whole = seq![IncludeV::System] + p.0;
                            assert forall|k: int| 0 <= k < whole.len() implies local_unit_sound(
                                t,
                                #[trigger] whole[k],
                            ) by {
                                if k > 0 {
                                    assert(whole[k] == p.0[k - 1]);
                                }
                            }
                        },
                        Err(_) => {},
                    }
                }
            },
            ParsedLineV::Quoted(q) => {
                if visited.contains(q) {
                    lemma_scan_lines_locals_sound(t, dir, fname, lines, i + 1, visited);
                } else {
                    let rel = spec_include_rel(q);
                    let base = spec_include_base(q);
                    match spec_resolve_dir(t, dir, rel) {
                        None => {},
                        Some(canon) => {
                            if !spec_has_c_file(t, canon, base) {
                                if visited.contains(base) {
                                    lemma_scan_lines_locals_sound(
                                        t,
                                        dir,
                                        fname,
                                        lines,
                                        i + 1,
                                        visited,
                                    );
                                } else {
                                    assert(visited.push(base) =~= visited + seq![base]);
                                    lemma_remaining_app_le(t, visited, seq![base]);
                                    lemma_scan_lines_locals_sound(
                                        t,
                                        dir,
                                        fname,
                                        lines,
                                        i + 1,
                                        visited.push(base),
                                    );
                                }
                            } else {
                                lemma_scan_file_locals_sound(t, canon, base, visited);
                                match scan_file_s(t, canon, base, visited) {
                                    Err(_) => {},
                                    Ok(p1) => {
                                        lemma_remaining_app_le(t, visited, p1.1);
                                        lemma_scan_file_locals_sound(
                                            t,
                                            canon,
                                            spec_with_c_ext(base),
                                            visited + p1.1,
                                        );
                                        match scan_file_s(
                                            t,
                                            canon,
                                            spec_with_c_ext(base),
                                            visited + p1.1,
                                        ) {
                                            Err(_) => {},
                                            Ok(p2) => {
                                                assert(visited + p1.1 + p2.1 =~= visited + (p1.1
                                                    + p2.1));
                                                lemma_remaining_app_le(t, visited, p1.1 + p2.1);
                                                lemma_scan_lines_locals_sound(
                                                    t,
                                                    dir,
                                                    fname,
                                                    lines,
                                                    i + 1,
                                                    visited + p1.1 + p2.1,
                                                );
                                                match scan_lines_s(
                                                    t,
                                                    dir,
                                                    fname,
                                                    lines,
                                                    i + 1,
                                                    visited + p1.1 + p2.1,
                                                ) {
                                                    Err(_) => {},
                                                    Ok(p3) => {
                                                        let unit = IncludeV::Local(
                                                            canon + seq!['/'] + base,
                                                        );
                                                        assert(local_unit_sound(t, unit));
                                                        let whole = seq![unit] + p1.0 + p2.0
                                                            + p3.0;
                                                        assert forall|k: int|
                                                            0 <= k < whole.len() implies
                                                            local_unit_sound(
                                                            t,
                                                            #[trigger] whole[k],
                                                        ) by {
                                                            let n1 = p1.0.len() as int;
                                                            let n2 = p2.0.len() as int;
                                                            if k == 0 {
                                                                assert(whole[k] == unit);
                                                            } else if k < 1 + n1 {
                                                                assert(whole[k] == p1.0[k - 1]);
                                                            } else if k < 1 + n1 + n2 {
                                                                assert(whole[k] == p2.0[k - 1
                                                                    - n1]);
                                                            } else {
                                                                assert(whole[k] == p3.0[k - 1 - n1
                                                                    - n2]);
                                                            }
                                                        }
                                                    },
                                                }
                                            },
                                        }
                                    },
                                }
                            }
                        },
                    }
                }
            },
        }
    }
}

/// A header without a sibling source file never becomes a unit: every local
/// unit of a successful scan names a header whose resolved directory holds
/// the matching `.c` file.  Such an include is only marked as seen, and the
/// scan continues rather than failing.
pub proof fn lemma_local_units_have_sources(t: SourceTree, path: Seq<char>)
    ensures
        match spec_get_includes(t, path) {
            Ok(s) => forall|k: int| 0 <= k < s.len() ==> local_unit_sound(t, #[trigger] s[k]),
            Err(_) => true,
        },
{
    match scan_file_s(t, path, "main.c"@, Seq::<Seq<char>>::empty()) {
        Ok(p) => {
            lemma_scan_file_locals_sound(t, path, "main.c"@, Seq::<Seq<char>>::empty());
            lemma_sort_incs_props(p.0);
            let sorted = spec_sort_incs(p.0);
            lemma_dedup_incs_props(sorted);
            let out = spec_dedup_incs(sorted);
            assert forall|k: int| 0 <= k < out.len() implies local_unit_sound(
                t,
                #[trigger] out[k],
            ) by {
                assert(out.contains(out[k]));
                assert(sorted.contains(out[k]));
                assert(p.0.contains(out[k]));
                let j = choose|j: int| 0 <= j < p.0.len() && p.0[j] == out[k];
                assert(local_unit_sound(t, p.0[j]));
            }
        },
        Err(_) => {},
    }
}

} // verus!
