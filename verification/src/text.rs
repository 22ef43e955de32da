//! Verified text utilities: prefix and suffix tests, lexicographic order,
//! whitespace trimming, searching, and decimal rendering of integers.
//!
//! Every executable function here is pinned to a spec function of the same
//! shape, so callers can reason about the exact character sequences produced.

use vstd::prelude::*;
use vstd::string::*;

verus! {

/// The decimal digit character for a value below ten.
pub open spec fn digit_char(d: nat) -> char {
    if d == 0 {
        '0'
    } else if d == 1 {
        '1'
    } else if d == 2 {
        '2'
    } else if d == 3 {
        '3'
    } else if d == 4 {
        '4'
    } else if d == 5 {
        '5'
    } else if d == 6 {
        '6'
    } else if d == 7 {
        '7'
    } else if d == 8 {
        '8'
    } else {
        '9'
    }
}

/// Decimal rendering of a natural number, most significant digit first.
pub open spec fn dec_digits(n: nat) -> Seq<char>
    decreases n,
{
    if n < 10 {
        seq![digit_char(n)]
    } else {
        dec_digits(n / 10).push(digit_char(n % 10))
    }
}

fn digit_str(d: u64) -> (r: &'static str)
    requires
        d < 10,
    ensures
        r@ =~= seq![digit_char(d as nat)],
{
    proof {
        reveal_strlit("0");
        reveal_strlit("1");
        reveal_strlit("2");
        reveal_strlit("3");
        reveal_strlit("4");
        reveal_strlit("5");
        reveal_strlit("6");
        reveal_strlit("7");
        reveal_strlit("8");
        reveal_strlit("9");
    }
    if d == 0 {
        "0"
    } else if d == 1 {
        "1"
    } else if d == 2 {
        "2"
    } else if d == 3 {
        "3"
    } else if d == 4 {
        "4"
    } else if d == 5 {
        "5"
    } else if d == 6 {
        "6"
    } else if d == 7 {
        "7"
    } else if d == 8 {
        "8"
    } else {
        "9"
    }
}

/// Renders a machine integer in decimal.
pub fn u64_to_dec(n: u64) -> (r: String)
    ensures
        r@ == dec_digits(n as nat),
    decreases n,
{
    if n < 10 {
        String::from_str(digit_str(n))
    } else {
        let mut s = u64_to_dec(n / 10);
        s.append(digit_str(n % 10));
        proof {
            assert(s@ =~= dec_digits((n / 10) as nat).push(digit_char((n % 10) as nat)));
        }
        s
    }
}

/// Decimal renderings are never empty.
pub proof fn lemma_dec_digits_len(n: nat)
    ensures
        dec_digits(n).len() >= 1,
    decreases n,
{
    if n >= 10 {
        lemma_dec_digits_len(n / 10);
    }
}

/// Decimal rendering is injective: distinct numbers read differently.
pub proof fn lemma_dec_digits_injective(a: nat, b: nat)
    requires
        dec_digits(a) == dec_digits(b),
    ensures
        a == b,
    decreases a,
{
    if a < 10 && b < 10 {
        assert(dec_digits(a) == seq![digit_char(a)]);
        assert(dec_digits(b) == seq![digit_char(b)]);
        assert(seq![digit_char(a)][0] == seq![digit_char(b)][0]);
        assert(digit_char(a) == digit_char(b));
    } else if a < 10 && b >= 10 {
        lemma_dec_digits_len(b / 10);
        assert(dec_digits(b).len() >= 2);
        assert(dec_digits(a).len() == 1);
    } else if a >= 10 && b < 10 {
        lemma_dec_digits_len(a / 10);
        assert(dec_digits(a).len() >= 2);
        assert(dec_digits(b).len() == 1);
    } else {
        assert(dec_digits(a).last() == digit_char(a % 10));
        assert(dec_digits(b).last() == digit_char(b % 10));
        assert(a % 10 == b % 10);
        assert(dec_digits(a).drop_last() =~= dec_digits(a / 10));
        assert(dec_digits(b).drop_last() =~= dec_digits(b / 10));
        lemma_dec_digits_injective(a / 10, b / 10);
        assert(a == (a / 10) * 10 + a % 10) by (nonlinear_arith);
        assert(b == (b / 10) * 10 + b % 10) by (nonlinear_arith);
    }
}

/// `p` is an initial segment of `s`.
pub open spec fn starts_with_chars(s: Seq<char>, p: Seq<char>) -> bool {
    p.len() <= s.len() && s.subrange(0, p.len() as int) == p
}

/// `p` is a final segment of `s`.
pub open spec fn ends_with_chars(s: Seq<char>, p: Seq<char>) -> bool {
    p.len() <= s.len() && s.subrange(s.len() - p.len(), s.len() as int) == p
}

fn chars_eq_from(s: &str, p: &str, i: usize, sl: usize, pl: usize) -> (r: bool)
    requires
        sl == s@.len(),
        pl == p@.len(),
        i <= pl,
        pl <= sl,
    ensures
        r == (s@.subrange(i as int, pl as int) == p@.subrange(i as int, pl as int)),
    decreases pl - i,
{
    if i == pl {
        proof {
            assert(s@.subrange(i as int, pl as int) =~= p@.subrange(i as int, pl as int));
        }
        true
    } else {
        let cs = s.get_char(i);
        let cp = p.get_char(i);
        if cs == cp {
            let r = chars_eq_from(s, p, i + 1, sl, pl);
            proof {
                if r {
                    assert forall|k: int| 0 <= k < pl - i implies s@.subrange(i as int, pl as int)[k]
                        == p@.subrange(i as int, pl as int)[k] by {
                        if k > 0 {
                            assert(s@.subrange(i + 1, pl as int)[k - 1] == p@.subrange(
                                i + 1,
                                pl as int,
                            )[k - 1]);
                        }
                    }
                    assert(s@.subrange(i as int, pl as int) =~= p@.subrange(i as int, pl as int));
                } else {
                    if s@.subrange(i as int, pl as int) == p@.subrange(i as int, pl as int) {
                        assert(s@.subrange(i + 1, pl as int) =~= s@.subrange(
                            i as int,
                            pl as int,
                        ).subrange(1, pl - i));
                        assert(p@.subrange(i + 1, pl as int) =~= p@.subrange(
                            i as int,
                            pl as int,
                        ).subrange(1, pl - i));
                    }
                }
            }
            r
        } else {
            proof {
                assert(s@.subrange(i as int, pl as int)[0] == cs);
                assert(p@.subrange(i as int, pl as int)[0] == cp);
            }
            false
        }
    }
}

/// Whether `s` begins with the characters of `p`.
pub fn str_starts_with(s: &str, p: &str) -> (r: bool)
    ensures
        r == starts_with_chars(s@, p@),
{
    let sl = s.unicode_len();
    let pl = p.unicode_len();
    if pl > sl {
        false
    } else {
        let r = chars_eq_from(s, p, 0, sl, pl);
        proof {
            assert(p@.subrange(0, pl as int) =~= p@);
        }
        r
    }
}

/// Whether `s` ends with the characters of `p`.
pub fn str_ends_with(s: &str, p: &str) -> (r: bool)
    ensures
        r == ends_with_chars(s@, p@),
{
    let sl = s.unicode_len();
    let pl = p.unicode_len();
    if pl > sl {
        false
    } else {
        let tail = s.substring_char(sl - pl, sl);
        let r = chars_eq_from(tail, p, 0, pl, pl);
        proof {
            assert(p@.subrange(0, pl as int) =~= p@);
            assert(tail@.subrange(0, pl as int) =~= tail@);
        }
        r
    }
}

/// Whether the character sequences of two strings are equal.
pub fn str_eq(s: &str, p: &str) -> (r: bool)
    ensures
        r == (s@ == p@),
{
    let sl = s.unicode_len();
    let pl = p.unicode_len();
    if sl != pl {
        false
    } else {
        let r = chars_eq_from(s, p, 0, sl, pl);
        proof {
            assert(s@.subrange(0, sl as int) =~= s@);
            assert(p@.subrange(0, pl as int) =~= p@);
        }
        r
    }
}

/// Lexicographic order on character sequences, by code point.
pub open spec fn lex_le(a: Seq<char>, b: Seq<char>) -> bool
    decreases a.len(),
{
    if a.len() == 0 {
        true
    } else if b.len() == 0 {
        false
    } else if a[0] == b[0] {
        lex_le(a.drop_first(), b.drop_first())
    } else {
        (a[0] as u32) < (b[0] as u32)
    }
}

/// Lexicographic order is total.
pub proof fn lemma_lex_le_total(a: Seq<char>, b: Seq<char>)
    ensures
        lex_le(a, b) || lex_le(b, a),
    decreases a.len(),
{
    if a.len() > 0 && b.len() > 0 {
        if a[0] == b[0] {
            lemma_lex_le_total(a.drop_first(), b.drop_first());
        } else {
            vstd::utf8::char_u32_cast(a[0], a[0] as u32);
            vstd::utf8::char_u32_cast(b[0], b[0] as u32);
        }
    }
}

/// Lexicographic order is antisymmetric.
pub proof fn lemma_lex_le_antisym(a: Seq<char>, b: Seq<char>)
    requires
        lex_le(a, b),
        lex_le(b, a),
    ensures
        a == b,
    decreases a.len(),
{
    if a.len() == 0 {
        assert(b.len() == 0);
        assert(a =~= b);
    } else {
        assert(b.len() > 0);
        assert(a[0] == b[0]);
        lemma_lex_le_antisym(a.drop_first(), b.drop_first());
        assert(a =~= seq![a[0]] + a.drop_first());
        assert(b =~= seq![b[0]] + b.drop_first());
    }
}

/// Lexicographic order is transitive.
pub proof fn lemma_lex_le_trans(a: Seq<char>, b: Seq<char>, c: Seq<char>)
    requires
        lex_le(a, b),
        lex_le(b, c),
    ensures
        lex_le(a, c),
    decreases a.len(),
{
    if a.len() > 0 && b.len() > 0 && c.len() > 0 && a[0] == b[0] && b[0] == c[0] {
        lemma_lex_le_trans(a.drop_first(), b.drop_first(), c.drop_first());
    }
}

fn lex_le_from(a: &str, b: &str, i: usize, al: usize, bl: usize) -> (r: bool)
    requires
        al == a@.len(),
        bl == b@.len(),
        i <= al,
        i <= bl,
    ensures
        r == lex_le(a@.skip(i as int), b@.skip(i as int)),
    decreases al - i,
{
    proof {
        if i < al {
            assert(a@.skip(i as int)[0] == a@[i as int]);
        }
        if i < bl {
            assert(b@.skip(i as int)[0] == b@[i as int]);
        }
    }
    if i == al {
        true
    } else if i == bl {
        false
    } else {
        let ca = a.get_char(i);
        let cb = b.get_char(i);
        if ca == cb {
            let r = lex_le_from(a, b, i + 1, al, bl);
            proof {
                assert(a@.skip(i as int).drop_first() =~= a@.skip(i + 1));
                assert(b@.skip(i as int).drop_first() =~= b@.skip(i + 1));
            }
            r
        } else {
            (ca as u32) < (cb as u32)
        }
    }
}

/// Whether `a` comes at or before `b` in lexicographic order.
pub fn str_lex_le(a: &str, b: &str) -> (r: bool)
    ensures
        r == lex_le(a@, b@),
{
    let al = a.unicode_len();
    let bl = b.unicode_len();
    let r = lex_le_from(a, b, 0, al, bl);
    proof {
        assert(a@.skip(0) =~= a@);
        assert(b@.skip(0) =~= b@);
    }
    r
}

/// The whitespace characters stripped by trimming.
pub open spec fn is_space_char(c: char) -> bool {
    c == ' ' || c == '\t' || c == '\r' || c == '\n'
}

fn is_space(c: char) -> (r: bool)
    ensures
        r == is_space_char(c),
{
    c == ' ' || c == '\t' || c == '\r' || c == '\n'
}

/// `s` without leading whitespace.
pub open spec fn ltrim_chars(s: Seq<char>) -> Seq<char>
    decreases s.len(),
{
    if s.len() > 0 && is_space_char(s[0]) {
        ltrim_chars(s.drop_first())
    } else {
        s
    }
}

/// `s` without trailing whitespace.
pub open spec fn rtrim_chars(s: Seq<char>) -> Seq<char>
    decreases s.len(),
{
    if s.len() > 0 && is_space_char(s[s.len() - 1]) {
        rtrim_chars(s.drop_last())
    } else {
        s
    }
}

/// `s` without leading or trailing whitespace.
pub open spec fn trim_chars(s: Seq<char>) -> Seq<char> {
    rtrim_chars(ltrim_chars(s))
}

fn ltrim_start(s: &str, i: usize, sl: usize) -> (r: usize)
    requires
        sl == s@.len(),
        i <= sl,
    ensures
        i <= r <= sl,
        ltrim_chars(s@.skip(i as int)) == s@.skip(r as int),
    decreases sl - i,
{
    if i == sl {
        proof {
            assert(s@.skip(i as int) =~= Seq::<char>::empty());
        }
        i
    } else {
        proof {
            assert(s@.skip(i as int)[0] == s@[i as int]);
        }
        let c = s.get_char(i);
        if is_space(c) {
            let r = ltrim_start(s, i + 1, sl);
            proof {
                assert(s@.skip(i as int).drop_first() =~= s@.skip(i + 1));
            }
            r
        } else {
            i
        }
    }
}

fn rtrim_end(s: &str, f: usize, j: usize, sl: usize) -> (r: usize)
    requires
        sl == s@.len(),
        f <= j <= sl,
    ensures
        f <= r <= j,
        rtrim_chars(s@.subrange(f as int, j as int)) == s@.subrange(f as int, r as int),
    decreases j - f,
{
    if j == f {
        j
    } else {
        proof {
            assert(s@.subrange(f as int, j as int)[j - f - 1] == s@[j - 1]);
        }
        let c = s.get_char(j - 1);
        if is_space(c) {
            proof {
                assert(s@.subrange(f as int, j as int).drop_last() =~= s@.subrange(
                    f as int,
                    j - 1,
                ));
            }
            rtrim_end(s, f, j - 1, sl)
        } else {
            j
        }
    }
}

/// `s` with surrounding whitespace removed, as an owned string.
pub fn str_trim(s: &str) -> (r: String)
    ensures
        r@ == trim_chars(s@),
{
    let sl = s.unicode_len();
    let f = ltrim_start(s, 0, sl);
    let e = rtrim_end(s, f, sl, sl);
    proof {
        assert(s@.skip(0) =~= s@);
        assert(s@.skip(f as int) =~= s@.subrange(f as int, sl as int));
    }
    String::from_str(s.substring_char(f, e))
}

/// The index of the last occurrence of `c` in `s`, if any.
pub open spec fn last_pos_of(s: Seq<char>, c: char) -> Option<int>
    decreases s.len(),
{
    if s.len() == 0 {
        None
    } else if s[s.len() - 1] == c {
        Some((s.len() - 1) as int)
    } else {
        last_pos_of(s.drop_last(), c)
    }
}

fn rfind_before(s: &str, c: char, j: usize, sl: usize) -> (r: Option<usize>)
    requires
        sl == s@.len(),
        j <= sl,
    ensures
        match r {
            Some(k) => last_pos_of(s@.subrange(0, j as int), c) == Some(k as int) && k < j,
            None => last_pos_of(s@.subrange(0, j as int), c) is None,
        },
    decreases j,
{
    if j == 0 {
        proof {
            assert(s@.subrange(0, 0) =~= Seq::<char>::empty());
        }
        None
    } else {
        proof {
            assert(s@.subrange(0, j as int)[j - 1] == s@[j - 1]);
        }
        let ch = s.get_char(j - 1);
        if ch == c {
            Some(j - 1)
        } else {
            let r = rfind_before(s, c, j - 1, sl);
            proof {
                assert(s@.subrange(0, j as int).drop_last() =~= s@.subrange(0, j - 1));
            }
            r
        }
    }
}

/// Finds the last occurrence of `c` in `s`.
pub fn str_rfind(s: &str, c: char) -> (r: Option<usize>)
    ensures
        match r {
            Some(k) => last_pos_of(s@, c) == Some(k as int) && k < s@.len(),
            None => last_pos_of(s@, c) is None,
        },
{
    let sl = s.unicode_len();
    let r = rfind_before(s, c, sl, sl);
    proof {
        assert(s@.subrange(0, sl as int) =~= s@);
    }
    r
}

/// An owned copy of `s[from..to]`, counted in characters.
pub fn substr(s: &str, from: usize, to: usize) -> (r: String)
    requires
        from <= to <= s@.len(),
    ensures
        r@ == s@.subrange(from as int, to as int),
{
    String::from_str(s.substring_char(from, to))
}

/// `s` with every occurrence of `pat` removed, scanning left to right.
pub open spec fn remove_all_chars(s: Seq<char>, pat: Seq<char>) -> Seq<char>
    decreases s.len(),
    when pat.len() > 0
{
    if s.len() == 0 {
        s
    } else if starts_with_chars(s, pat) {
        remove_all_chars(s.skip(pat.len() as int), pat)
    } else {
        seq![s[0]] + remove_all_chars(s.drop_first(), pat)
    }
}

fn remove_all_into(s: &str, pat: &str, i: usize, sl: usize, out: &mut String)
    requires
        sl == s@.len(),
        i <= sl,
        pat@.len() > 0,
    ensures
        final(out)@ == old(out)@ + remove_all_chars(s@.skip(i as int), pat@),
    decreases sl - i,
{
    if i == sl {
        proof {
            assert(s@.skip(i as int) =~= Seq::<char>::empty());
            assert(out@ =~= out@ + remove_all_chars(s@.skip(i as int), pat@));
        }
    } else {
        let suffix = s.substring_char(i, sl);
        if str_starts_with(suffix, pat) {
            let pl = pat.unicode_len();
            proof {
                assert(s@.skip(i as int) =~= suffix@);
                assert(suffix@.skip(pl as int) =~= s@.skip(i + pl));
            }
            remove_all_into(s, pat, i + pl, sl, out);
        } else {
            proof {
                assert(s@.skip(i as int) =~= suffix@);
                assert(s@.skip(i as int)[0] == s@[i as int]);
                assert(s@.subrange(i as int, i + 1) =~= seq![s@[i as int]]);
            }
            let one = s.substring_char(i, i + 1);
            out.append(one);
            let ghost pre = out@;
            remove_all_into(s, pat, i + 1, sl, out);
            proof {
                assert(s@.skip(i as int).drop_first() =~= s@.skip(i + 1));
                assert(out@ =~= old(out)@ + remove_all_chars(s@.skip(i as int), pat@));
            }
        }
    }
}

/// `s` with every occurrence of `pat` removed.
pub fn str_remove_all(s: &str, pat: &str) -> (r: String)
    requires
        pat@.len() > 0,
    ensures
        r@ == remove_all_chars(s@, pat@),
{
    let mut out = String::new();
    let sl = s.unicode_len();
    remove_all_into(s, pat, 0, sl, &mut out);
    proof {
        assert(s@.skip(0) =~= s@);
        assert(out@ =~= remove_all_chars(s@, pat@));
    }
    out
}

/// `dir`, a path separator, then `name`.
pub fn join_path(dir: &str, name: &str) -> (r: String)
    ensures
        r@ == dir@ + seq!['/'] + name@,
{
    let mut s = String::from_str(dir);
    s.append("/");
    s.append(name);
    proof {
        reveal_strlit("/");
        assert("/"@ =~= seq!['/']);
    }
    s
}

} // verus!
