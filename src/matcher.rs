//! Recognizes the path being typed at the end of a line.
//!
//! A path is an optional start (a run of plain component units, or a URL
//! scheme such as `file://`) followed by a body: a `/`, or one or more
//! `/`-led components, optionally closed by a `/`. A component unit is a
//! plain character or an escaped space (`^` or a backtick followed by a
//! whitespace character); components after a `/` may also hold `=`, so that
//! in `key=/dir` the key is not taken as part of the path.

use vstd::prelude::*;

verus! {

/// Whether `c` is alphanumeric, by `char::is_alphanumeric` (Unicode's
/// Alphabetic and Numeric properties).
pub uninterp spec fn alphanumeric(c: char) -> bool;

/// Relies on `char::is_alphanumeric`.
#[verifier::external_body]
fn char_is_alphanumeric(c: char) -> (r: bool)
    ensures
        r == alphanumeric(c),
{
    c.is_alphanumeric()
}

/// A word character: alphanumeric or `_`.
pub open spec fn is_word_char(c: char) -> bool {
    alphanumeric(c) || c == '_'
}

/// A character of Unicode's White_Space property.
pub open spec fn is_space_char(c: char) -> bool {
    ('\u{09}' <= c <= '\u{0D}') || c == ' ' || c == '\u{85}' || c == '\u{A0}' || c == '\u{1680}'
        || ('\u{2000}' <= c <= '\u{200A}') || c == '\u{2028}' || c == '\u{2029}' || c
        == '\u{202F}' || c == '\u{205F}' || c == '\u{3000}'
}

/// A character allowed in every component on its own.
pub open spec fn is_plain_char(c: char) -> bool {
    is_word_char(c) || c == '@' || c == '.' || c == '-' || c == '+' || c == '#' || c == '$' || c
        == '%' || c == '?' || c == '!' || c == ',' || c == ';' || c == '~' || c == '&'
}

/// A character of a URL scheme.
pub open spec fn is_scheme_char(c: char) -> bool {
    is_word_char(c) || c == '+' || c == '-' || c == '.'
}

/// `s[i..j]` is a sequence of component units; `eq` admits `=` as a unit.
pub open spec fn units(s: Seq<char>, i: int, j: int, eq: bool) -> bool
    decreases j - i,
{
    if i >= j {
        i == j
    } else if is_plain_char(s[i]) || (eq && s[i] == '=') {
        units(s, i + 1, j, eq)
    } else if (s[i] == '^' || s[i] == '`') && i + 1 < j && is_space_char(s[i + 1]) {
        units(s, i + 2, j, eq)
    } else {
        false
    }
}

/// The first offset at or after `i` that holds `/`, or `s.len()`.
pub open spec fn next_slash(s: Seq<char>, i: int) -> int
    decreases s.len() - i,
{
    if i >= s.len() {
        s.len() as int
    } else if s[i] == '/' {
        i
    } else {
        next_slash(s, i + 1)
    }
}

/// The first offset at or after `i` that holds no scheme character, or
/// `s.len()`.
pub open spec fn scheme_end(s: Seq<char>, i: int) -> int
    decreases s.len() - i,
{
    if i >= s.len() {
        s.len() as int
    } else if !is_scheme_char(s[i]) {
        i
    } else {
        scheme_end(s, i + 1)
    }
}

/// `s[i..]` is a path body: `/`, or `/` and a component, then a body or the end.
pub open spec fn is_body(s: Seq<char>, i: int) -> bool
    decreases s.len() - i,
{
    if i < 0 || i >= s.len() || s[i] != '/' {
        false
    } else if i + 1 == s.len() {
        true
    } else {
        let k = next_slash(s, i + 1);
        k > i + 1 && units(s, i + 1, k, true) && (k >= s.len() || is_body(s, k))
    }
}

/// `s[i..]` is a URL scheme, `:/` or `://`, and a body.
pub open spec fn is_url(s: Seq<char>, i: int) -> bool {
    let k = scheme_end(s, i);
    &&& 0 <= i < k
    &&& k + 1 < s.len()
    &&& s[k] == ':'
    &&& s[k + 1] == '/'
    &&& is_body(s, k + 2) || (k + 2 < s.len() && s[k + 2] == '/' && is_body(s, k + 3))
}

/// `s[i..]` is a URL scheme followed by `:/` or `://` and nothing else.
pub open spec fn is_bare_scheme(s: Seq<char>, i: int) -> bool {
    let k = scheme_end(s, i);
    &&& 0 <= i < k
    &&& k + 1 < s.len()
    &&& s[k] == ':'
    &&& s[k + 1] == '/'
    &&& k + 2 == s.len() || (k + 3 == s.len() && s[k + 2] == '/')
}

/// `s[i..]` is a path; with `single_file`, a path start without any `/`
/// (a bare file name, `~`, or a bare URL scheme) counts too.
pub open spec fn is_path_at(s: Seq<char>, i: int, single_file: bool) -> bool {
    let k = next_slash(s, i);
    ||| is_body(s, i)
    ||| (0 <= i < k && units(s, i, k, false) && is_body(s, k))
    ||| is_url(s, i)
    ||| single_file && 0 <= i < s.len() && units(s, i, s.len() as int, false)
    ||| single_file && is_bare_scheme(s, i)
}

/// The first offset at or after `i` from which the rest of `s` is a path.
pub open spec fn path_start_from(s: Seq<char>, i: int, single_file: bool) -> Option<int>
    decreases s.len() + 1 - i,
{
    if i < 0 || i > s.len() {
        None
    } else if is_path_at(s, i, single_file) {
        Some(i)
    } else {
        path_start_from(s, i + 1, single_file)
    }
}

/// The path that ends `s`: its longest suffix that is a path.
pub open spec fn path_token(s: Seq<char>, single_file: bool) -> Option<Seq<char>> {
    match path_start_from(s, 0, single_file) {
        Some(i) => Some(s.subrange(i, s.len() as int)),
        None => None,
    }
}

fn is_plain(c: char) -> (r: bool)
    ensures
        r == is_plain_char(c),
{
    c == '_' || c == '@' || c == '.' || c == '-' || c == '+' || c == '#' || c == '$' || c == '%'
        || c == '?' || c == '!' || c == ',' || c == ';' || c == '~' || c == '&'
        || char_is_alphanumeric(c)
}

fn is_space(c: char) -> (r: bool)
    ensures
        r == is_space_char(c),
{
    ('\u{09}' <= c && c <= '\u{0D}') || c == ' ' || c == '\u{85}' || c == '\u{A0}' || c
        == '\u{1680}' || ('\u{2000}' <= c && c <= '\u{200A}') || c == '\u{2028}' || c == '\u{2029}'
        || c == '\u{202F}' || c == '\u{205F}' || c == '\u{3000}'
}

fn check_units(s: &Vec<char>, i: usize, j: usize, eq: bool) -> (r: bool)
    requires
        i <= j <= s@.len(),
    ensures
        r == units(s@, i as int, j as int, eq),
{
    let mut p: usize = i;
    while p < j
        invariant
            i <= p <= j <= s@.len(),
            units(s@, i as int, j as int, eq) == units(s@, p as int, j as int, eq),
        decreases j - p,
    {
        let c = s[p];
        if is_plain(c) || (eq && c == '=') {
            p = p + 1;
        } else if (c == '^' || c == '`') && p + 1 < j && is_space(s[p + 1]) {
            p = p + 2;
        } else {
            return false;
        }
    }
    true
}

fn find_slash(s: &Vec<char>, i: usize) -> (r: usize)
    requires
        i <= s@.len(),
    ensures
        r == next_slash(s@, i as int),
        i <= r <= s@.len(),
{
    let mut p: usize = i;
    while p < s.len()
        invariant
            i <= p <= s@.len(),
            next_slash(s@, i as int) == next_slash(s@, p as int),
        decreases s@.len() - p,
    {
        if s[p] == '/' {
            return p;
        }
        p = p + 1;
    }
    p
}

fn find_scheme_end(s: &Vec<char>, i: usize) -> (r: usize)
    requires
        i <= s@.len(),
    ensures
        r == scheme_end(s@, i as int),
        i <= r <= s@.len(),
{
    let mut p: usize = i;
    while p < s.len()
        invariant
            i <= p <= s@.len(),
            scheme_end(s@, i as int) == scheme_end(s@, p as int),
        decreases s@.len() - p,
    {
        let c = s[p];
        if !(char_is_alphanumeric(c) || c == '_' || c == '+' || c == '-' || c == '.') {
            return p;
        }
        p = p + 1;
    }
    p
}

fn check_body(s: &Vec<char>, i: usize) -> (r: bool)
    ensures
        r == is_body(s@, i as int),
{
    let mut p: usize = i;
    while p < s.len()
        invariant
            i <= p,
            is_body(s@, i as int) == is_body(s@, p as int),
        decreases s@.len() - p,
    {
        if s[p] != '/' {
            return false;
        }
        if p + 1 == s.len() {
            return true;
        }
        let k = find_slash(s, p + 1);
        if !(k > p + 1 && check_units(s, p + 1, k, true)) {
            return false;
        }
        if k == s.len() {
            return true;
        }
        p = k;
    }
    false
}

fn check_url(s: &Vec<char>, i: usize) -> (r: bool)
    requires
        i <= s@.len(),
    ensures
        r == is_url(s@, i as int),
{
    let k = find_scheme_end(s, i);
    if !(i < k && k < s.len() && k + 1 < s.len() && s[k] == ':' && s[k + 1] == '/') {
        return false;
    }
    check_body(s, k + 2) || (k + 2 < s.len() && s[k + 2] == '/' && check_body(s, k + 3))
}

fn check_bare_scheme(s: &Vec<char>, i: usize) -> (r: bool)
    requires
        i <= s@.len(),
    ensures
        r == is_bare_scheme(s@, i as int),
{
    let k = find_scheme_end(s, i);
    if !(i < k && k < s.len() && k + 1 < s.len() && s[k] == ':' && s[k + 1] == '/') {
        return false;
    }
    k + 2 == s.len() || (k + 3 == s.len() && s[k + 2] == '/')
}

fn check_path(s: &Vec<char>, i: usize, single_file: bool) -> (r: bool)
    requires
        i <= s@.len(),
    ensures
        r == is_path_at(s@, i as int, single_file),
{
    if check_body(s, i) {
        return true;
    }
    let k = find_slash(s, i);
    if i < k && check_units(s, i, k, false) && check_body(s, k) {
        return true;
    }
    if check_url(s, i) {
        return true;
    }
    single_file && ((i < s.len() && check_units(s, i, s.len(), false)) || check_bare_scheme(s, i))
}

/// The offset where the path that ends `line` starts: the leftmost offset
/// from which the rest of the line is a path. `None` when no suffix is one.
pub fn path_suffix_start(line: &Vec<char>, single_file: bool) -> (r: Option<usize>)
    ensures
        r matches Some(i) ==> i <= line@.len() && is_path_at(line@, i as int, single_file) && forall|j: int|
            0 <= j < i ==> !is_path_at(line@, j, single_file),
        r is None ==> forall|j: int| 0 <= j <= line@.len() ==> !is_path_at(line@, j, single_file),
        r == (match path_start_from(line@, 0, single_file) {
            Some(i) => Some(i as usize),
            None => None::<usize>,
        }),
        path_start_from(line@, 0, single_file) matches Some(i) ==> 0 <= i <= line@.len(),
{
    let mut i: usize = 0;
    while i <= line.len()
        invariant
            i <= line@.len() + 1,
            forall|j: int| 0 <= j < i ==> !is_path_at(line@, j, single_file),
            path_start_from(line@, 0, single_file) == path_start_from(line@, i as int, single_file),
        decreases line@.len() + 1 - i,
    {
        if check_path(line, i, single_file) {
            return Some(i);
        }
        if i == line.len() {
            assert(path_start_from(line@, i + 1, single_file) is None);
            return None;
        }
        i = i + 1;
    }
    None
}

/// The path that ends `line`, if any: the longest suffix that is a path.
pub fn path_suffix(line: &Vec<char>, single_file: bool) -> (r: Option<Vec<char>>)
    ensures
        r matches Some(t) ==> exists|i: int|
            0 <= i <= line@.len() && is_path_at(line@, i, single_file) && t@ == line@.subrange(
                i,
                line@.len() as int,
            ) && forall|j: int| 0 <= j < i ==> !is_path_at(line@, j, single_file),
        r is None ==> forall|j: int| 0 <= j <= line@.len() ==> !is_path_at(line@, j, single_file),
        r is Some <==> path_token(line@, single_file) is Some,
        r matches Some(t) ==> t@ == path_token(line@, single_file)->0,
{
    match path_suffix_start(line, single_file) {
        None => None,
        Some(i) => {
            let mut t: Vec<char> = Vec::new();
            let mut p: usize = i;
            while p < line.len()
                invariant
                    i <= p <= line@.len(),
                    t@ == line@.subrange(i as int, p as int),
                decreases line@.len() - p,
            {
                t.push(line[p]);
                p = p + 1;
                assert(t@ =~= line@.subrange(i as int, p as int));
            }
            Some(t)
        },
    }
}

} // verus!
