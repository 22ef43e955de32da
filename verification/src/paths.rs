//! Verified path arithmetic on plain strings: file-name extraction and
//! extension replacement.  Paths are character sequences with `/` as the
//! separator; canonicalization itself is the file system's business and is
//! modelled by the scanner's directory table.

use vstd::prelude::*;
use vstd::string::*;

use crate::text::{last_pos_of, str_rfind, substr};

verus! {

/// The file-name component of a path: everything after the last separator,
/// or the whole path when it has none.
pub open spec fn spec_bare_name(p: Seq<char>) -> Seq<char> {
    match last_pos_of(p, '/') {
        Some(j) => p.skip(j + 1),
        None => p,
    }
}

/// Extracts the file-name component of a path.
pub fn bare_name(p: &str) -> (r: String)
    ensures
        r@ == spec_bare_name(p@),
{
    let l = p.unicode_len();
    match str_rfind(p, '/') {
        Some(j) => {
            let r = substr(p, j + 1, l);
            proof {
                assert(p@.subrange(j + 1, l as int) =~= p@.skip(j + 1));
            }
            r
        },
        None => String::from_str(p),
    }
}

/// A file name with its extension replaced by `.c`; a name whose only dot
/// leads (a hidden file) has no extension, so `.c` is appended instead.
pub open spec fn spec_with_c_ext(name: Seq<char>) -> Seq<char> {
    match last_pos_of(name, '.') {
        Some(j) => if j > 0 {
            name.subrange(0, j) + ".c"@
        } else {
            name + ".c"@
        },
        None => name + ".c"@,
    }
}

/// Replaces a file name's extension by `.c`.
pub fn with_c_ext(name: &str) -> (r: String)
    ensures
        r@ == spec_with_c_ext(name@),
{
    let l = name.unicode_len();
    let stem_end: usize = match str_rfind(name, '.') {
        Some(j) => if j > 0 {
            j
        } else {
            l
        },
        None => l,
    };
    let mut r = substr(name, 0, stem_end);
    r.append(".c");
    proof {
        assert(name@.subrange(0, l as int) =~= name@);
    }
    r
}

/// A path with the file-name component's extension replaced by `.c`.
pub open spec fn spec_path_with_c_ext(p: Seq<char>) -> Seq<char> {
    match last_pos_of(p, '/') {
        Some(j) => p.subrange(0, j + 1) + spec_with_c_ext(p.skip(j + 1)),
        None => spec_with_c_ext(p),
    }
}

/// Replaces the extension of a path's file-name component by `.c`.
pub fn path_with_c_ext(p: &str) -> (r: String)
    ensures
        r@ == spec_path_with_c_ext(p@),
{
    let l = p.unicode_len();
    match str_rfind(p, '/') {
        Some(j) => {
            let mut r = substr(p, 0, j + 1);
            let rest = substr(p, j + 1, l);
            let tail = with_c_ext(rest.as_str());
            r.append(tail.as_str());
            proof {
                assert(p@.subrange(j + 1, l as int) =~= p@.skip(j + 1));
            }
            r
        },
        None => with_c_ext(p),
    }
}

} // verus!
