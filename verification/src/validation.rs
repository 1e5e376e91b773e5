//! Module identifiers: their syntax, where they are found on disk and how
//! `module.prop` declares them.

use vstd::prelude::*;

use crate::defs::path_exists;
use crate::path::{dot_dot, join, path_parts, rooted, join_parts, split_parts};
use crate::text::{
    chars_eq, chars_of, has_prefix, lines_of, slice_chars, split_lines, starts_with_chars,
    string_from_chars, trim, trim_chars, trim_start, trim_start_chars, views,
};

verus! {

pub open spec fn is_ascii_letter(c: char) -> bool {
    ('a' <= c && c <= 'z') || ('A' <= c && c <= 'Z')
}

pub open spec fn is_ascii_alnum(c: char) -> bool {
    is_ascii_letter(c) || ('0' <= c && c <= '9')
}

pub open spec fn is_id_char(c: char) -> bool {
    is_ascii_alnum(c) || c == '.' || c == '_' || c == '-'
}

/// Module identifiers match `^[a-zA-Z][a-zA-Z0-9._-]+$`.
pub open spec fn spec_valid_module_id(id: Seq<char>) -> bool {
    &&& id.len() >= 2
    &&& is_ascii_letter(id[0])
    &&& forall|i: int| 1 <= i < id.len() ==> is_id_char(#[trigger] id[i])
}

/// Why an identifier or path was refused.
#[derive(Debug, Clone, PartialEq, Eq)]
pub enum ValidationError {
    InvalidModuleId(String),
}

pub fn is_valid_module_id(module_id: &str) -> (b: bool)
    ensures
        b == spec_valid_module_id(module_id@),
{
    let s = chars_of(module_id);
    if s.len() < 2 {
        return false;
    }
    let c0 = s[0];
    if !(('a' <= c0 && c0 <= 'z') || ('A' <= c0 && c0 <= 'Z')) {
        return false;
    }
    let mut i: usize = 1;
    while i < s.len()
        invariant
            1 <= i <= s@.len(),
            s@ == module_id@,
            forall|j: int| 1 <= j < i ==> is_id_char(#[trigger] s@[j]),
        decreases s@.len() - i,
    {
        let c = s[i];
        if !(('a' <= c && c <= 'z') || ('A' <= c && c <= 'Z') || ('0' <= c && c <= '9') || c
            == '.' || c == '_' || c == '-') {
            return false;
        }
        i = i + 1;
    }
    true
}

/// Accepts exactly the identifiers that match `^[a-zA-Z][a-zA-Z0-9._-]+$`.
pub fn validate_module_id(module_id: &str) -> (r: Result<(), ValidationError>)
    ensures
        r is Ok <==> spec_valid_module_id(module_id@),
        r matches Err(ValidationError::InvalidModuleId(s)) ==> s@ == module_id@,
{
    if is_valid_module_id(module_id) {
        Ok(())
    } else {
        let v = chars_of(module_id);
        Err(ValidationError::InvalidModuleId(string_from_chars(&v)))
    }
}

/// How far up from a path the search for `module.prop` goes.
pub const MAX_MODULE_ID_DEPTH: usize = 64;

/// The `k`-th ancestor of a path made of `parts` (the path itself for 0).
pub open spec fn ancestor(absolute: bool, parts: Seq<Seq<char>>, k: int) -> Seq<char> {
    let p = parts.take(parts.len() - k);
    if absolute {
        rooted(p)
    } else {
        join_parts(p)
    }
}

/// The final component of the `k`-th ancestor, unless it is `".."` or
/// there is none.
pub open spec fn ancestor_name(parts: Seq<Seq<char>>, k: int) -> Option<Seq<char>> {
    let n = parts.len() - k;
    if n > 0 && parts[n - 1] != dot_dot() {
        Some(parts[n - 1])
    } else {
        None
    }
}

/// Number of ancestors examined for a path with `n` components.
pub open spec fn ancestor_count(n: nat) -> nat {
    if n + 1 < 64 {
        n + 1
    } else {
        64
    }
}

/// The first examined ancestor whose probe is true decides: its name.
pub open spec fn first_probed_name(parts: Seq<Seq<char>>, probes: Seq<bool>, k: int) -> Option<
    Seq<char>,
>
    decreases probes.len() - k,
{
    if k >= probes.len() || k < 0 {
        None
    } else if probes[k] {
        ancestor_name(parts, k)
    } else {
        first_probed_name(parts, probes, k + 1)
    }
}

/// The identifier of the module that holds `path`: the name of the nearest
/// of the first 64 ancestors of `path` (itself included) that has a
/// `module.prop` file, where `probes[k]` says whether the `k`-th has one.
pub open spec fn spec_module_id_from_probes(path: Seq<char>, probes: Seq<bool>) -> Option<
    Seq<char>,
> {
    first_probed_name(path_parts(path), probes, 0)
}

pub open spec fn opt_view(o: Option<String>) -> Option<Seq<char>> {
    match o {
        Some(s) => Some(s@),
        None => None,
    }
}

/// The decision of `extract_module_id` for given probe results.
pub fn module_id_from_probes(path: &str, probes: &Vec<bool>) -> (r: Option<String>)
    ensures
        opt_view(r) == spec_module_id_from_probes(path@, probes@),
{
    let s = chars_of(path);
    let parts = split_parts(&s);
    let mut k: usize = 0;
    while k < probes.len()
        invariant
            k <= probes@.len(),
            views(parts@) == path_parts(path@),
            first_probed_name(path_parts(path@), probes@, 0) == first_probed_name(
                path_parts(path@),
                probes@,
                k as int,
            ),
        decreases probes@.len() - k,
    {
        if probes[k] {
            let n = parts.len();
            if k < n {
                let idx = n - k - 1;
                let last = &parts[idx];
                assert(views(parts@)[idx as int] == last@);
                let is_up = last.len() == 2 && last[0] == '.' && last[1] == '.';
                assert(is_up == (last@ == dot_dot())) by {
                    if last@.len() == 2 && last@[0] == '.' && last@[1] == '.' {
                        assert(last@ =~= dot_dot());
                    }
                }
                if !is_up {
                    return Some(string_from_chars(last));
                }
            }
            return None;
        }
        k = k + 1;
    }
    None
}

/// The text of the `k`-th ancestor of the path made of `parts`.
fn ancestor_text(absolute: bool, parts: &Vec<Vec<char>>, k: usize) -> (r: String)
    requires
        k <= parts@.len(),
    ensures
        r@ == ancestor(absolute, views(parts@), k as int),
{
    let n = parts.len() - k;
    let mut prefix: Vec<Vec<char>> = Vec::new();
    let mut i: usize = 0;
    while i < n
        invariant
            i <= n <= parts@.len(),
            views(prefix@) == views(parts@).take(i as int),
        decreases n - i,
    {
        let c = crate::path::copy_chars(&parts[i]);
        proof {
            crate::text::lemma_views_push(prefix@, c);
        }
        prefix.push(c);
        assert(views(prefix@) =~= views(parts@).take(i + 1));
        i = i + 1;
    }
    let t = join(&prefix, absolute);
    string_from_chars(&t)
}

/// The identifier of the module that holds `path` (see
/// `spec_module_id_from_probes`); whether each ancestor has a `module.prop`
/// is read from disk.
pub fn extract_module_id(path: &str) -> (r: Option<String>)
    ensures
        possible_module_id(path@, opt_view(r)),
        r matches Some(id) ==> exists|k: int|
            0 <= k < ancestor_count(path_parts(path@).len()) && ancestor_name(path_parts(path@), k)
                == Some(id@),
{
    let s = chars_of(path);
    let parts = split_parts(&s);
    let absolute = s.len() > 0 && s[0] == '/';
    let count: usize = if parts.len() < MAX_MODULE_ID_DEPTH - 1 {
        parts.len() + 1
    } else {
        MAX_MODULE_ID_DEPTH
    };
    let prop = "module.prop";
    let mut probes: Vec<bool> = Vec::new();
    let mut k: usize = 0;
    while k < count
        invariant
            k <= count,
            count == ancestor_count(parts@.len() as nat),
            probes@.len() == k,
        decreases count - k,
    {
        let dir = ancestor_text(absolute, &parts, k);
        let candidate = crate::defs::join_name(dir.as_str(), prop);
        probes.push(path_exists(candidate.as_str()));
        k = k + 1;
    }
    let r = module_id_from_probes(path, &probes);
    proof {
        lemma_first_probed_in_range(views(parts@), probes@, 0);
        assert(spec_module_id_from_probes(path@, probes@) == opt_view(r));
    }
    r
}

/// What `extract_module_id` can give for `path`: the decision of
/// `spec_module_id_from_probes` for some answer of the `module.prop`
/// probes of the ancestors it examines (the disk decides which).
pub open spec fn possible_module_id(path: Seq<char>, r: Option<Seq<char>>) -> bool {
    exists|probes: Seq<bool>|
        probes.len() == ancestor_count(path_parts(path).len()) && #[trigger] spec_module_id_from_probes(
            path,
            probes,
        ) == r
}

/// `ids[i]` is what `extract_module_id` can give for `paths[i]`, for each
/// path.
pub open spec fn possible_module_ids(paths: Seq<Seq<char>>, ids: Seq<Option<Seq<char>>>) -> bool {
    &&& ids.len() == paths.len()
    &&& forall|i: int| 0 <= i < ids.len() ==> possible_module_id(paths[i], #[trigger] ids[i])
}

/// The identifiers found among `ids`.
pub open spec fn some_values(ids: Seq<Option<Seq<char>>>) -> Set<Seq<char>> {
    Set::new(|x: Seq<char>| exists|i: int| 0 <= i < ids.len() && ids[i] == Some(x))
}

proof fn lemma_first_probed_in_range(parts: Seq<Seq<char>>, probes: Seq<bool>, k: int)
    requires
        0 <= k,
    ensures
        first_probed_name(parts, probes, k) matches Some(n) ==> exists|j: int|
            k <= j < probes.len() && ancestor_name(parts, j) == Some(n),
    decreases probes.len() - k,
{
    if k < probes.len() {
        if !probes[k] {
            lemma_first_probed_in_range(parts, probes, k + 1);
        }
    }
}

/// Index of the first `c` in `s`, or its length when there is none.
pub open spec fn first_index(s: Seq<char>, c: char) -> nat
    decreases s.len(),
{
    if s.len() == 0 {
        0
    } else if s[0] == c {
        0
    } else {
        1 + first_index(s.drop_first(), c)
    }
}

pub proof fn lemma_first_index(s: Seq<char>, c: char)
    ensures
        first_index(s, c) <= s.len(),
        forall|j: int| 0 <= j < first_index(s, c) ==> s[j] != c,
        first_index(s, c) < s.len() ==> s[first_index(s, c) as int] == c,
    decreases s.len(),
{
    if s.len() > 0 && s[0] != c {
        lemma_first_index(s.drop_first(), c);
        assert forall|j: int| 0 <= j < first_index(s, c) implies s[j] != c by {
            if j > 0 {
                assert(s[j] == s.drop_first()[j - 1]);
            }
        }
    }
}

/// Index of the first `c` in `s`, or `s.len()`.
pub fn find_char(s: &[char], c: char) -> (i: usize)
    ensures
        i == first_index(s@, c),
{
    let mut i: usize = 0;
    assert(s@.skip(0) =~= s@);
    while i < s.len() && s[i] != c
        invariant
            i <= s.len(),
            first_index(s@, c) == i + first_index(s@.skip(i as int), c),
        decreases s.len() - i,
    {
        let ghost rest = s@.skip(i as int);
        assert(rest[0] == s@[i as int]);
        assert(rest.drop_first() =~= s@.skip(i + 1));
        i = i + 1;
    }
    if i < s.len() {
        assert(s@.skip(i as int)[0] == c);
    } else {
        assert(s@.skip(i as int).len() == 0);
    }
    i
}

/// The key of a `key=value` line, trimmed, if the line has an `'='`.
pub open spec fn prop_key(line: Seq<char>) -> Option<Seq<char>> {
    let i = first_index(line, '=');
    if i < line.len() {
        Some(trim(line.take(i as int)))
    } else {
        None
    }
}

/// The value of a `key=value` line, trimmed.
pub open spec fn prop_value(line: Seq<char>) -> Seq<char> {
    trim(line.skip(first_index(line, '=') + 1int))
}

/// What one line of `module.prop` says of the module's `id`: lines whose
/// first non-blank character is `#` are comments.
pub open spec fn id_in_line(line: Seq<char>) -> Option<Seq<char>> {
    let t = trim_start(line);
    if has_prefix(t, seq!['#']) {
        None
    } else if prop_key(t) == Some(seq!['i', 'd']) {
        Some(prop_value(t))
    } else {
        None
    }
}

/// The first `id` declared by the lines.
pub open spec fn id_in_lines(lines: Seq<Seq<char>>) -> Option<Seq<char>>
    decreases lines.len(),
{
    if lines.len() == 0 {
        None
    } else if id_in_line(lines[0]) is Some {
        id_in_line(lines[0])
    } else {
        id_in_lines(lines.drop_first())
    }
}

/// The module identifier that `module.prop` content declares.
pub open spec fn spec_module_prop_id(content: Seq<char>) -> Option<Seq<char>> {
    id_in_lines(lines_of(content))
}

fn id_of_line(line: &Vec<char>) -> (r: Option<Vec<char>>)
    ensures
        match r {
            Some(v) => id_in_line(line@) == Some(v@),
            None => id_in_line(line@) is None,
        },
{
    let t = trim_start_chars(line);
    let mut hash: Vec<char> = Vec::new();
    hash.push('#');
    if starts_with_chars(&t, &hash) {
        return None;
    }
    let i = find_char(&t, '=');
    if i >= t.len() {
        return None;
    }
    proof {
        lemma_first_index(t@, '=');
    }
    let key_raw = slice_chars(&t, 0, i);
    assert(key_raw@ =~= t@.take(i as int));
    let key = trim_chars(&key_raw);
    let mut id: Vec<char> = Vec::new();
    id.push('i');
    id.push('d');
    if !chars_eq(&key, &id) {
        assert(id@ =~= seq!['i', 'd']);
        return None;
    }
    assert(id@ =~= seq!['i', 'd']);
    let value_raw = slice_chars(&t, i + 1, t.len());
    assert(value_raw@ =~= t@.skip(i + 1));
    let value = trim_chars(&value_raw);
    Some(value)
}

/// The module identifier that `module.prop` content declares (see
/// `spec_module_prop_id`).
pub fn parse_module_prop_id(content: &str) -> (r: Option<String>)
    ensures
        opt_view(r) == spec_module_prop_id(content@),
{
    let s = chars_of(content);
    let lines = split_lines(&s);
    let mut i: usize = 0;
    assert(views(lines@).skip(0) =~= views(lines@));
    while i < lines.len()
        invariant
            i <= lines@.len(),
            views(lines@) == lines_of(content@),
            id_in_lines(views(lines@)) == id_in_lines(views(lines@).skip(i as int)),
        decreases lines@.len() - i,
    {
        let ghost rest = views(lines@).skip(i as int);
        assert(rest[0] == lines@[i as int]@);
        assert(rest.drop_first() =~= views(lines@).skip(i + 1));
        match id_of_line(&lines[i]) {
            Some(v) => {
                return Some(string_from_chars(&v));
            },
            None => {},
        }
        i = i + 1;
    }
    None
}

/// Whether the `module.prop` content declares a valid identifier equal to
/// the name of the module's directory.
pub fn module_prop_id_matches_dir(content: &str, dir_id: &str) -> (b: bool)
    ensures
        b == (spec_module_prop_id(content@) matches Some(id) && spec_valid_module_id(id) && id
            == dir_id@),
{
    match parse_module_prop_id(content) {
        Some(id) => is_valid_module_id(id.as_str()) && crate::text::str_is(id.as_str(), dir_id),
        None => false,
    }
}

} // verus!
