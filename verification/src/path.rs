//! Lexical path handling: component splitting, normalisation and the
//! rendering of component lists back into paths.

use vstd::prelude::*;

use crate::text::{chars_of, lemma_views_push, string_from_chars, views};

verus! {

pub open spec fn dot() -> Seq<char> {
    seq!['.']
}

pub open spec fn dot_dot() -> Seq<char> {
    seq!['.', '.']
}

/// The component `cur` completed by a separator: kept unless empty or `"."`.
pub open spec fn keep_part(parts: Seq<Seq<char>>, cur: Seq<char>) -> Seq<Seq<char>> {
    if cur.len() == 0 || cur == dot() {
        parts
    } else {
        parts.push(cur)
    }
}

/// The components of `s` after the partial component `cur`, with empty and
/// `"."` components dropped and `".."` kept, as `Path::components` sees a
/// Unix path apart from its root.
pub open spec fn parts_from(s: Seq<char>, cur: Seq<char>) -> Seq<Seq<char>>
    decreases s.len(),
{
    if s.len() == 0 {
        keep_part(seq![], cur)
    } else if s[0] == '/' {
        keep_part(seq![], cur) + parts_from(s.drop_first(), seq![])
    } else {
        parts_from(s.drop_first(), cur.push(s[0]))
    }
}

pub open spec fn path_parts(s: Seq<char>) -> Seq<Seq<char>> {
    parts_from(s, seq![])
}

pub open spec fn is_absolute(s: Seq<char>) -> bool {
    s.len() > 0 && s[0] == '/'
}

/// Components with every `".."` applied to the component before it; a
/// `".."` with nothing before it is dropped.
pub open spec fn resolve_parts(parts: Seq<Seq<char>>) -> Seq<Seq<char>>
    decreases parts.len(),
{
    if parts.len() == 0 {
        seq![]
    } else {
        let r = resolve_parts(parts.drop_last());
        if parts.last() == dot_dot() {
            if r.len() > 0 {
                r.drop_last()
            } else {
                r
            }
        } else {
            r.push(parts.last())
        }
    }
}

/// The components joined with `'/'`.
pub open spec fn join_parts(parts: Seq<Seq<char>>) -> Seq<char>
    decreases parts.len(),
{
    if parts.len() == 0 {
        seq![]
    } else if parts.len() == 1 {
        parts[0]
    } else {
        join_parts(parts.drop_last()) + seq!['/'] + parts.last()
    }
}

/// `"/"` followed by the components joined with `'/'`.
pub open spec fn rooted(parts: Seq<Seq<char>>) -> Seq<char> {
    seq!['/'] + join_parts(parts)
}

/// The lexically normalised form of a path: `"."` dropped, `".."` applied,
/// repeated and trailing separators removed; a rooted path stays rooted.
pub open spec fn spec_normalize_path(s: Seq<char>) -> Seq<char> {
    let r = resolve_parts(path_parts(s));
    if is_absolute(s) {
        rooted(r)
    } else {
        join_parts(r)
    }
}

/// The canonical form under which mount points are registered for unmounting:
/// always rooted, `"."` and empty components dropped, `".."` kept as is.
pub open spec fn spec_normalize_umount_path(s: Seq<char>) -> Seq<char> {
    rooted(path_parts(s))
}

/// Splits a path into its components (see `path_parts`).
pub fn split_parts(s: &[char]) -> (parts: Vec<Vec<char>>)
    ensures
        views(parts@) == path_parts(s@),
{
    let mut out: Vec<Vec<char>> = Vec::new();
    let mut cur: Vec<char> = Vec::new();
    let mut i: usize = 0;
    assert(s@.skip(0) =~= s@);
    assert(views(out@) =~= Seq::<Seq<char>>::empty());
    while i < s.len()
        invariant
            i <= s.len(),
            views(out@) + parts_from(s@.skip(i as int), cur@) == path_parts(s@),
        decreases s.len() - i,
    {
        let ghost rest = s@.skip(i as int);
        assert(rest[0] == s@[i as int]);
        assert(rest.drop_first() =~= s@.skip(i + 1));
        let c = s[i];
        if c == '/' {
            let ghost old_cur = cur@;
            let ghost before = views(out@);
            let keep = cur.len() > 0 && !(cur.len() == 1 && cur[0] == '.');
            assert(keep == !(old_cur.len() == 0 || old_cur == dot())) by {
                if old_cur.len() == 1 && old_cur[0] == '.' {
                    assert(old_cur =~= dot());
                }
            }
            if keep {
                proof {
                    lemma_views_push(out@, cur);
                }
                out.push(cur);
                assert(before + keep_part(seq![], old_cur) =~= views(out@));
            } else {
                assert(before + keep_part(seq![], old_cur) =~= views(out@));
            }
            cur = Vec::new();
            assert(before + (keep_part(seq![], old_cur) + parts_from(s@.skip(i + 1), seq![]))
                =~= views(out@) + parts_from(s@.skip(i + 1), cur@));
        } else {
            let ghost old_cur = cur@;
            cur.push(c);
            assert(parts_from(rest, old_cur) == parts_from(s@.skip(i + 1), cur@));
        }
        i = i + 1;
    }
    assert(s@.skip(i as int) =~= Seq::<char>::empty());
    let ghost before = views(out@);
    let keep = cur.len() > 0 && !(cur.len() == 1 && cur[0] == '.');
    assert(keep == !(cur@.len() == 0 || cur@ == dot())) by {
        if cur@.len() == 1 && cur@[0] == '.' {
            assert(cur@ =~= dot());
        }
    }
    if keep {
        proof {
            lemma_views_push(out@, cur);
        }
        out.push(cur);
    }
    assert(before + keep_part(seq![], cur@) =~= views(out@));
    out
}

/// Applies `".."` components (see `resolve_parts`).
pub fn resolve(parts: Vec<Vec<char>>) -> (r: Vec<Vec<char>>)
    ensures
        views(r@) == resolve_parts(views(parts@)),
{
    let mut out: Vec<Vec<char>> = Vec::new();
    let mut i: usize = 0;
    assert(views(out@) =~= Seq::<Seq<char>>::empty());
    assert(views(parts@).take(0) =~= Seq::<Seq<char>>::empty());
    while i < parts.len()
        invariant
            i <= parts@.len(),
            views(out@) == resolve_parts(views(parts@).take(i as int)),
        decreases parts@.len() - i,
    {
        let ghost pre = views(parts@).take(i + 1);
        assert(pre.drop_last() =~= views(parts@).take(i as int));
        assert(pre.last() == parts@[i as int]@);
        let is_up = parts[i].len() == 2 && parts[i][0] == '.' && parts[i][1] == '.';
        assert(is_up == (parts@[i as int]@ == dot_dot())) by {
            if parts@[i as int]@.len() == 2 && parts@[i as int]@[0] == '.' && parts@[i as int]@[1] == '.' {
                assert(parts@[i as int]@ =~= dot_dot());
            }
        }
        if is_up {
            if out.len() > 0 {
                let ghost before = out@;
                out.pop();
                assert(views(out@) =~= views(before).drop_last());
            }
        } else {
            let p = copy_chars(&parts[i]);
            proof {
                lemma_views_push(out@, p);
            }
            out.push(p);
        }
        i = i + 1;
    }
    assert(views(parts@).take(i as int) =~= views(parts@));
    out
}

/// A copy of the characters of `v`.
pub fn copy_chars(v: &Vec<char>) -> (r: Vec<char>)
    ensures
        r@ == v@,
{
    let mut r: Vec<char> = Vec::new();
    let mut k: usize = 0;
    while k < v.len()
        invariant
            k <= v.len(),
            r@ == v@.take(k as int),
        decreases v.len() - k,
    {
        r.push(v[k]);
        assert(r@ =~= v@.take(k + 1));
        k = k + 1;
    }
    assert(v@.take(k as int) =~= v@);
    r
}

/// Joins components with `'/'`, optionally after a leading `'/'`.
pub fn join(parts: &Vec<Vec<char>>, root: bool) -> (r: Vec<char>)
    ensures
        r@ == (if root {
            rooted(views(parts@))
        } else {
            join_parts(views(parts@))
        }),
{
    let mut out: Vec<char> = Vec::new();
    let mut i: usize = 0;
    assert(views(parts@).take(0) =~= Seq::<Seq<char>>::empty());
    while i < parts.len()
        invariant
            i <= parts@.len(),
            out@ == join_parts(views(parts@).take(i as int)),
        decreases parts@.len() - i,
    {
        let ghost pre = views(parts@).take(i + 1);
        assert(pre.drop_last() =~= views(parts@).take(i as int));
        assert(pre.last() == parts@[i as int]@);
        let ghost before = out@;
        if i > 0 {
            out.push('/');
        }
        let mut k: usize = 0;
        let ghost mid = out@;
        while k < parts[i].len()
            invariant
                k <= parts@[i as int]@.len(),
                i < parts@.len(),
                out@ == mid + parts@[i as int]@.take(k as int),
            decreases parts@[i as int]@.len() - k,
        {
            out.push(parts[i][k]);
            assert(out@ =~= mid + parts@[i as int]@.take(k + 1));
            k = k + 1;
        }
        assert(parts@[i as int]@.take(k as int) =~= parts@[i as int]@);
        if i == 0 {
            assert(pre =~= seq![parts@[0]@]);
            assert(out@ =~= join_parts(pre));
        } else {
            assert(out@ =~= join_parts(pre));
        }
        i = i + 1;
    }
    assert(views(parts@).take(i as int) =~= views(parts@));
    if root {
        let mut r: Vec<char> = Vec::new();
        r.push('/');
        let mut k: usize = 0;
        while k < out.len()
            invariant
                k <= out@.len(),
                r@ == seq!['/'] + out@.take(k as int),
            decreases out@.len() - k,
        {
            r.push(out[k]);
            assert(r@ =~= seq!['/'] + out@.take(k + 1));
            k = k + 1;
        }
        assert(out@.take(k as int) =~= out@);
        r
    } else {
        out
    }
}

/// The lexically normalised form of `path` (see `spec_normalize_path`).
pub fn normalize_path(path: &str) -> (r: String)
    ensures
        r@ == spec_normalize_path(path@),
{
    let s = chars_of(path);
    let parts = split_parts(&s);
    let resolved = resolve(parts);
    let absolute = s.len() > 0 && s[0] == '/';
    let out = join(&resolved, absolute);
    string_from_chars(&out)
}

/// The canonical form under which a mount point is registered for
/// unmounting (see `spec_normalize_umount_path`).
pub fn normalize_umount_path(path: &str) -> (r: String)
    ensures
        r@ == spec_normalize_umount_path(path@),
{
    let s = chars_of(path);
    let parts = split_parts(&s);
    let out = join(&parts, true);
    string_from_chars(&out)
}

/// A component that `Path::components` reports as `Normal`: not empty, not
/// `"."` or `".."`, and free of separators.
pub open spec fn plain_part(p: Seq<char>) -> bool {
    &&& p.len() > 0
    &&& p != dot()
    &&& p != dot_dot()
    &&& !p.contains('/')
}

proof fn lemma_parts_from_no_separator(a: Seq<char>, rest: Seq<char>, cur: Seq<char>)
    requires
        !a.contains('/'),
    ensures
        parts_from(a + rest, cur) == parts_from(rest, cur + a),
    decreases a.len(),
{
    if a.len() == 0 {
        assert(a + rest =~= rest);
        assert(cur + a =~= cur);
    } else {
        assert((a + rest)[0] == a[0]);
        assert((a + rest).drop_first() =~= a.drop_first() + rest);
        assert(!a.drop_first().contains('/')) by {
            if a.drop_first().contains('/') {
                let k = choose|k: int| 0 <= k < a.drop_first().len() && a.drop_first()[k] == '/';
                assert(a[k + 1] == '/');
            }
        }
        if a[0] == '/' {
            assert(a.contains('/'));
        }
        lemma_parts_from_no_separator(a.drop_first(), rest, cur.push(a[0]));
        assert(cur.push(a[0]) + a.drop_first() =~= cur + a);
    }
}

pub(crate) proof fn lemma_parts_from_plain(s: Seq<char>, cur: Seq<char>)
    requires
        !cur.contains('/'),
    ensures
        forall|i: int| 0 <= i < parts_from(s, cur).len() ==> plain_part(#[trigger] parts_from(s, cur)[i]) || parts_from(s, cur)[i] == dot_dot(),
    decreases s.len(),
{
    if s.len() == 0 {
        if cur.len() > 0 && cur != dot() {
            assert(parts_from(s, cur) =~= seq![cur]);
        } else {
            assert(parts_from(s, cur) =~= Seq::<Seq<char>>::empty());
        }
    } else if s[0] == '/' {
        lemma_parts_from_plain(s.drop_first(), seq![]);
        let k = keep_part(seq![], cur);
        assert forall|i: int| 0 <= i < parts_from(s, cur).len() implies plain_part(#[trigger] parts_from(s, cur)[i]) || parts_from(s, cur)[i] == dot_dot() by {
            assert(parts_from(s, cur) == k + parts_from(s.drop_first(), seq![]));
            if i < k.len() {
                assert(k =~= seq![cur]);
                assert(parts_from(s, cur)[i] == cur);
            } else {
                assert(parts_from(s, cur)[i] == parts_from(s.drop_first(), seq![])[i - k.len()]);
            }
        }
    } else {
        assert(!cur.push(s[0]).contains('/')) by {
            if cur.push(s[0]).contains('/') {
                let k = choose|k: int| 0 <= k < cur.push(s[0]).len() && cur.push(s[0])[k] == '/';
                if k < cur.len() {
                    assert(cur[k] == '/');
                }
            }
        }
        lemma_parts_from_plain(s.drop_first(), cur.push(s[0]));
        assert(parts_from(s, cur) == parts_from(s.drop_first(), cur.push(s[0])));
    }
}

proof fn lemma_resolve_plain(parts: Seq<Seq<char>>)
    requires
        forall|i: int| 0 <= i < parts.len() ==> plain_part(#[trigger] parts[i]) || parts[i] == dot_dot(),
    ensures
        forall|i: int| 0 <= i < resolve_parts(parts).len() ==> plain_part(#[trigger] resolve_parts(parts)[i]),
    decreases parts.len(),
{
    if parts.len() > 0 {
        assert forall|i: int| 0 <= i < parts.drop_last().len() implies plain_part(#[trigger] parts.drop_last()[i]) || parts.drop_last()[i] == dot_dot() by {
            assert(parts.drop_last()[i] == parts[i]);
        }
        lemma_resolve_plain(parts.drop_last());
        let r = resolve_parts(parts.drop_last());
        assert(parts.last() == parts[parts.len() - 1]);
        if parts.last() == dot_dot() {
            if r.len() > 0 {
                assert forall|i: int| 0 <= i < r.drop_last().len() implies plain_part(#[trigger] r.drop_last()[i]) by {
                    assert(r.drop_last()[i] == r[i]);
                }
            }
        } else {
            assert forall|i: int| 0 <= i < r.push(parts.last()).len() implies plain_part(#[trigger] r.push(parts.last())[i]) by {
                if i < r.len() {
                    assert(r.push(parts.last())[i] == r[i]);
                }
            }
        }
    }
}

proof fn lemma_resolve_keeps_plain(parts: Seq<Seq<char>>)
    requires
        forall|i: int| 0 <= i < parts.len() ==> plain_part(#[trigger] parts[i]),
    ensures
        resolve_parts(parts) == parts,
    decreases parts.len(),
{
    if parts.len() > 0 {
        assert forall|i: int| 0 <= i < parts.drop_last().len() implies plain_part(#[trigger] parts.drop_last()[i]) by {
            assert(parts.drop_last()[i] == parts[i]);
        }
        lemma_resolve_keeps_plain(parts.drop_last());
        assert(plain_part(parts[parts.len() - 1]));
        assert(parts.drop_last().push(parts.last()) =~= parts);
    }
}

proof fn lemma_join_front(parts: Seq<Seq<char>>)
    requires
        parts.len() >= 2,
    ensures
        join_parts(parts) == parts[0] + seq!['/'] + join_parts(parts.drop_first()),
    decreases parts.len(),
{
    if parts.len() == 2 {
        assert(parts.drop_last().len() == 1);
        assert(join_parts(parts.drop_last()) == parts.drop_last()[0]);
        assert(parts.drop_first().len() == 1);
        assert(join_parts(parts.drop_first()) == parts.drop_first()[0]);
        assert(parts.drop_last()[0] == parts[0]);
        assert(parts.drop_first()[0] == parts[1]);
        assert(parts.last() == parts[1]);
        assert(join_parts(parts) == join_parts(parts.drop_last()) + seq!['/'] + parts.last());
    } else {
        lemma_join_front(parts.drop_last());
        let a = parts[0];
        let m = join_parts(parts.drop_last().drop_first());
        assert(parts.drop_last()[0] == a);
        assert(parts.drop_last().drop_first() =~= parts.drop_first().drop_last());
        assert(parts.drop_first().last() == parts.last());
        assert(join_parts(parts.drop_first()) == m + seq!['/'] + parts.last());
        assert(join_parts(parts) == join_parts(parts.drop_last()) + seq!['/'] + parts.last());
        assert(join_parts(parts) =~= a + seq!['/'] + join_parts(parts.drop_first()));
    }
}

proof fn lemma_parts_of_join(parts: Seq<Seq<char>>)
    requires
        forall|i: int| 0 <= i < parts.len() ==> plain_part(#[trigger] parts[i]),
    ensures
        path_parts(join_parts(parts)) == parts,
    decreases parts.len(),
{
    if parts.len() == 0 {
    } else {
        let first = parts[0];
        assert(plain_part(first));
        if parts.len() == 1 {
            lemma_parts_from_no_separator(first, seq![], seq![]);
            assert(first + Seq::<char>::empty() =~= first);
            assert(Seq::<char>::empty() + first =~= first);
            assert(seq![first] =~= parts);
        } else {
            let tail = join_parts(parts.drop_first());
            lemma_join_front(parts);
            assert forall|i: int| 0 <= i < parts.drop_first().len() implies plain_part(#[trigger] parts.drop_first()[i]) by {
                assert(parts.drop_first()[i] == parts[i + 1]);
            }
            lemma_parts_of_join(parts.drop_first());
            assert(first + seq!['/'] + tail =~= first + (seq!['/'] + tail));
            lemma_parts_from_no_separator(first, seq!['/'] + tail, seq![]);
            assert(Seq::<char>::empty() + first =~= first);
            assert((seq!['/'] + tail)[0] == '/');
            assert((seq!['/'] + tail).drop_first() =~= tail);
            assert(keep_part(seq![], first) =~= seq![first]);
            assert(seq![first] + parts.drop_first() =~= parts);
        }
    }
}

/// Normalising an absolute path yields an absolute path made of plain
/// components only, and normalising that result again changes nothing.
pub proof fn lemma_normalize_path_canonical(s: Seq<char>)
    requires
        is_absolute(s),
    ensures
        is_absolute(spec_normalize_path(s)),
        forall|i: int| 0 <= i < path_parts(spec_normalize_path(s)).len()
            ==> plain_part(#[trigger] path_parts(spec_normalize_path(s))[i]),
        spec_normalize_path(spec_normalize_path(s)) == spec_normalize_path(s),
{
    let r = resolve_parts(path_parts(s));
    lemma_parts_from_plain(s, seq![]);
    lemma_resolve_plain(path_parts(s));
    let n = spec_normalize_path(s);
    assert(n == rooted(r));
    assert(n[0] == '/');
    assert(n.drop_first() =~= join_parts(r));
    assert(path_parts(n) == keep_part(seq![], seq![]) + parts_from(n.drop_first(), seq![]));
    lemma_parts_of_join(r);
    assert(keep_part(seq![], seq![]) + r =~= r);
    assert(path_parts(n) == r);
    lemma_resolve_keeps_plain(r);
}

/// Probe `k`: a probe that was not taken reads as missing.
pub open spec fn probe_of(probes: Seq<bool>, k: int) -> bool {
    0 <= k < probes.len() && probes[k]
}

/// The walk up from `cur` towards `root`: while `cur` is not the root and
/// probe `k` finds it missing, its final name (unless it is `".."`) is put
/// in front of `suffix` and `cur` loses its last component; the walk stops
/// at a path that exists, at the root, or where nothing is left to drop.
/// Gives where it stopped, the names dropped, and the next probe.
pub open spec fn climb(
    root: Seq<Seq<char>>,
    cur: Seq<Seq<char>>,
    probes: Seq<bool>,
    k: int,
    suffix: Seq<Seq<char>>,
) -> (Seq<Seq<char>>, Seq<Seq<char>>, int)
    decreases cur.len(),
{
    if cur == root {
        (cur, suffix, k)
    } else if probe_of(probes, k) || cur.len() == 0 {
        (cur, suffix, k + 1)
    } else {
        let kept = if cur.last() != dot_dot() {
            seq![cur.last()] + suffix
        } else {
            suffix
        };
        climb(root, cur.drop_last(), probes, k + 1, kept)
    }
}

/// Where `path`, seen from a system mounted at `root`, is found, given the
/// existence probes of the paths visited (in order): the path is made
/// absolute and placed under the root; from its parent the walk climbs to
/// the first existing ancestor (see `climb`), which is kept if the probe
/// after the walk finds it, else the parent is; the dropped names and the
/// final name follow; the result is given back relative to `root`. Where
/// the path has no final name, or the result does not lie under the root,
/// the absolute form of `path` is the answer.
pub open spec fn spec_resolve_with_root(root: Seq<char>, path: Seq<char>, probes: Seq<bool>) -> Seq<char> {
    let virtual_path = if is_absolute(path) {
        path
    } else {
        seq!['/'] + path
    };
    let rparts = path_parts(root);
    let root_is_slash = is_absolute(root) && rparts.len() == 0;
    let tparts = if root_is_slash {
        path_parts(path)
    } else {
        rparts + path_parts(path)
    };
    if tparts.len() == 0 || tparts.last() == dot_dot() {
        virtual_path
    } else {
        let parent = tparts.drop_last();
        let walk = climb(rparts, parent, probes, 0, seq![]);
        let base = if probe_of(probes, walk.2) {
            walk.0
        } else {
            parent
        };
        let resolved = base + walk.1 + seq![tparts.last()];
        if root_is_slash {
            rooted(resolved)
        } else if rparts.len() <= resolved.len() && resolved.take(rparts.len() as int) == rparts {
            rooted(resolved.skip(rparts.len() as int))
        } else {
            virtual_path
        }
    }
}

fn parts_eq(a: &Vec<Vec<char>>, b: &Vec<Vec<char>>) -> (r: bool)
    ensures
        r == (views(a@) == views(b@)),
{
    if a.len() != b.len() {
        assert(views(a@).len() != views(b@).len());
        return false;
    }
    let mut i: usize = 0;
    while i < a.len()
        invariant
            i <= a@.len(),
            a@.len() == b@.len(),
            forall|j: int| 0 <= j < i ==> a@[j]@ == b@[j]@,
        decreases a@.len() - i,
    {
        if !crate::text::chars_eq(&a[i], &b[i]) {
            assert(views(a@)[i as int] != views(b@)[i as int]);
            return false;
        }
        i = i + 1;
    }
    assert(views(a@) =~= views(b@));
    true
}

fn copy_parts(a: &Vec<Vec<char>>, from: usize, to: usize) -> (r: Vec<Vec<char>>)
    requires
        from <= to <= a@.len(),
    ensures
        views(r@) == views(a@).subrange(from as int, to as int),
{
    let mut r: Vec<Vec<char>> = Vec::new();
    let mut i: usize = from;
    while i < to
        invariant
            from <= i <= to <= a@.len(),
            views(r@) == views(a@).subrange(from as int, i as int),
        decreases to - i,
    {
        let c = copy_chars(&a[i]);
        proof {
            lemma_views_push(r@, c);
        }
        r.push(c);
        assert(views(a@).subrange(from as int, i + 1) =~= views(a@).subrange(from as int, i as int).push(
            a@[i as int]@,
        ));
        i = i + 1;
    }
    r
}

fn append_parts(r: &mut Vec<Vec<char>>, a: &Vec<Vec<char>>)
    ensures
        views(final(r)@) == views(old(r)@) + views(a@),
{
    let ghost start = views(r@);
    let mut i: usize = 0;
    while i < a.len()
        invariant
            i <= a@.len(),
            views(r@) == start + views(a@).take(i as int),
            start == views(old(r)@),
        decreases a@.len() - i,
    {
        let c = copy_chars(&a[i]);
        proof {
            lemma_views_push(r@, c);
        }
        r.push(c);
        assert(views(a@).take(i + 1) =~= views(a@).take(i as int).push(a@[i as int]@));
        assert(start + views(a@).take(i + 1) =~= (start + views(a@).take(i as int)).push(a@[i as int]@));
        i = i + 1;
    }
    assert(views(a@).take(i as int) =~= views(a@));
}

fn is_dot_dot(p: &Vec<char>) -> (b: bool)
    ensures
        b == (p@ == dot_dot()),
{
    let r = p.len() == 2 && p[0] == '.' && p[1] == '.';
    assert(r ==> p@ =~= dot_dot());
    r
}

/// Where `path`, seen from a system mounted at `root`, is found, given the
/// existence probes of the paths visited (see `spec_resolve_with_root`).
pub fn resolve_with_probes(root: &str, path: &str, probes: &Vec<bool>) -> (r: String)
    ensures
        r@ == spec_resolve_with_root(root@, path@, probes@),
{
    let rc = chars_of(root);
    let pc = chars_of(path);
    let rparts = split_parts(&rc);
    let vparts = split_parts(&pc);
    let root_is_slash = rc.len() > 0 && rc[0] == '/' && rparts.len() == 0;
    let mut vchars: Vec<char> = Vec::new();
    if !(pc.len() > 0 && pc[0] == '/') {
        vchars.push('/');
    }
    let ghost before = vchars@;
    let mut q: usize = 0;
    while q < pc.len()
        invariant
            q <= pc@.len(),
            vchars@ == before + pc@.take(q as int),
        decreases pc@.len() - q,
    {
        vchars.push(pc[q]);
        assert(vchars@ =~= before + pc@.take(q + 1));
        q = q + 1;
    }
    assert(pc@.take(q as int) =~= pc@);
    assert(vchars@ == (if is_absolute(path@) {
        path@
    } else {
        seq!['/'] + path@
    }));
    let mut tparts: Vec<Vec<char>> = if root_is_slash {
        copy_parts(&vparts, 0, vparts.len())
    } else {
        let mut t = copy_parts(&rparts, 0, rparts.len());
        append_parts(&mut t, &vparts);
        t
    };
    assert(views(vparts@).subrange(0, vparts@.len() as int) =~= views(vparts@));
    assert(views(rparts@).subrange(0, rparts@.len() as int) =~= views(rparts@));
    let ghost tp = views(tparts@);
    if tparts.len() == 0 {
        return string_from_chars(&vchars);
    }
    let n = tparts.len();
    assert(tp.last() == tparts@[n - 1]@);
    if is_dot_dot(&tparts[n - 1]) {
        return string_from_chars(&vchars);
    }
    let file = copy_chars(&tparts[n - 1]);
    let parent = copy_parts(&tparts, 0, n - 1);
    assert(views(parent@) =~= tp.drop_last());
    let mut cur = copy_parts(&parent, 0, parent.len());
    assert(views(parent@).subrange(0, parent@.len() as int) =~= views(parent@));
    let mut suffix: Vec<Vec<char>> = Vec::new();
    let mut k: usize = 0;
    let ghost goal = climb(views(rparts@), views(parent@), probes@, 0, seq![]);
    assert(views(suffix@) =~= Seq::<Seq<char>>::empty());
    loop
        invariant_except_break
            k + cur@.len() <= parent@.len(),
            climb(views(rparts@), views(cur@), probes@, k as int, views(suffix@)) == goal,
        invariant
            parent@.len() < n,
            goal == climb(views(rparts@), views(parent@), probes@, 0, seq![]),
        ensures
            (views(cur@), views(suffix@), k as int) == goal,
        decreases cur@.len(),
    {
        if parts_eq(&cur, &rparts) {
            break;
        }
        let found = k < probes.len() && probes[k];
        k = k + 1;
        if found || cur.len() == 0 {
            break;
        }
        let ghost cv = views(cur@);
        let ghost sv = views(suffix@);
        let last = cur.pop().unwrap();
        assert(views(cur@) =~= cv.drop_last());
        assert(last@ == cv.last());
        if !is_dot_dot(&last) {
            suffix.insert(0, last);
            assert(views(suffix@) =~= seq![cv.last()] + sv);
        }
    }
    let fin = k < probes.len() && probes[k];
    let mut resolved = if fin {
        cur
    } else {
        parent
    };
    append_parts(&mut resolved, &suffix);
    let ghost rv = views(resolved@);
    proof {
        lemma_views_push(resolved@, file);
    }
    resolved.push(file);
    assert(views(resolved@) == rv.push(tp.last()));
    assert(rv.push(tp.last()) =~= rv + seq![tp.last()]);
    if root_is_slash {
        let out = join(&resolved, true);
        return string_from_chars(&out);
    }
    let rl = rparts.len();
    if rl <= resolved.len() {
        let head = copy_parts(&resolved, 0, rl);
        if parts_eq(&head, &rparts) {
            let tail = copy_parts(&resolved, rl, resolved.len());
            assert(views(resolved@).subrange(0, rl as int) =~= views(resolved@).take(rl as int));
            assert(views(resolved@).subrange(rl as int, resolved@.len() as int) =~= views(resolved@).skip(
                rl as int,
            ));
            let out = join(&tail, true);
            return string_from_chars(&out);
        }
        assert(views(resolved@).subrange(0, rl as int) =~= views(resolved@).take(rl as int));
    }
    string_from_chars(&vchars)
}

/// Where `path`, seen from a system mounted at `root`, is found on disk:
/// `resolve_with_probes` over what `Path::exists` answers for each path
/// that the walk visits, in order.
pub fn resolve_path_with_root(root: &str, path: &str) -> (r: String)
    ensures
        exists|probes: Seq<bool>| r@ == #[trigger] spec_resolve_with_root(root@, path@, probes),
{
    let rc = chars_of(root);
    let pc = chars_of(path);
    let rparts = split_parts(&rc);
    let vparts = split_parts(&pc);
    let root_is_slash = rc.len() > 0 && rc[0] == '/' && rparts.len() == 0;
    let mut cur: Vec<Vec<char>> = if root_is_slash {
        copy_parts(&vparts, 0, vparts.len())
    } else {
        let mut t = copy_parts(&rparts, 0, rparts.len());
        append_parts(&mut t, &vparts);
        t
    };
    let mut probes: Vec<bool> = Vec::new();
    if cur.len() > 0 {
        cur.pop();
        loop
            decreases cur@.len(),
        {
            if parts_eq(&cur, &rparts) {
                break;
            }
            let here = join(&cur, true);
            let found = crate::defs::path_exists(string_from_chars(&here).as_str());
            probes.push(found);
            if found || cur.len() == 0 {
                break;
            }
            cur.pop();
        }
        let here = join(&cur, true);
        probes.push(crate::defs::path_exists(string_from_chars(&here).as_str()));
    }
    resolve_with_probes(root, path, &probes)
}

/// Whether the path `p` starts with the path `base`, component by
/// component.
pub open spec fn path_starts_with(p: Seq<char>, base: Seq<char>) -> bool {
    let pp = path_parts(p);
    let bp = path_parts(base);
    &&& is_absolute(p) == is_absolute(base)
    &&& bp.len() <= pp.len()
    &&& pp.take(bp.len() as int) == bp
}

/// Whether the path `p` starts with the path `base` (see `path_starts_with`).
pub fn path_prefix(p: &str, base: &str) -> (b: bool)
    ensures
        b == path_starts_with(p@, base@),
{
    let pc = chars_of(p);
    let bc = chars_of(base);
    let pabs = pc.len() > 0 && pc[0] == '/';
    let babs = bc.len() > 0 && bc[0] == '/';
    if pabs != babs {
        return false;
    }
    let pp = crate::path::split_parts(&pc);
    let bp = crate::path::split_parts(&bc);
    if bp.len() > pp.len() {
        return false;
    }
    let mut i: usize = 0;
    while i < bp.len()
        invariant
            i <= bp@.len() <= pp@.len(),
            views(pp@) == crate::path::path_parts(p@),
            views(bp@) == crate::path::path_parts(base@),
            forall|j: int| 0 <= j < i ==> views(pp@)[j] == views(bp@)[j],
        decreases bp@.len() - i,
    {
        assert(views(pp@)[i as int] == pp@[i as int]@);
        assert(views(bp@)[i as int] == bp@[i as int]@);
        if !crate::text::chars_eq(&pp[i], &bp[i]) {
            assert(views(pp@).take(bp@.len() as int)[i as int] != views(bp@)[i as int]);
            return false;
        }
        i = i + 1;
    }
    assert(views(pp@).take(bp@.len() as int) =~= views(bp@));
    true
}

} // verus!
