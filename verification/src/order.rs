//! The lexicographic order of strings and sorted sets of strings.

use vstd::prelude::*;

use crate::text::chars_of;

verus! {

/// `a` sorts strictly before `b`, comparing characters by code point as
/// `str`'s `Ord` does.
pub open spec fn lex_lt(a: Seq<char>, b: Seq<char>) -> bool
    decreases a.len(),
{
    if b.len() == 0 {
        false
    } else if a.len() == 0 {
        true
    } else if a[0] != b[0] {
        (a[0] as int) < (b[0] as int)
    } else {
        lex_lt(a.drop_first(), b.drop_first())
    }
}

pub proof fn lemma_lex_irreflexive(a: Seq<char>)
    ensures
        !lex_lt(a, a),
    decreases a.len(),
{
    if a.len() > 0 {
        lemma_lex_irreflexive(a.drop_first());
    }
}

pub proof fn lemma_lex_total(a: Seq<char>, b: Seq<char>)
    ensures
        lex_lt(a, b) || lex_lt(b, a) || a == b,
    decreases a.len(),
{
    if a.len() > 0 && b.len() > 0 && a[0] == b[0] {
        lemma_lex_total(a.drop_first(), b.drop_first());
        if a.drop_first() == b.drop_first() {
            assert(a =~= seq![a[0]] + a.drop_first());
            assert(b =~= seq![b[0]] + b.drop_first());
        }
    } else if a.len() == 0 && b.len() == 0 {
        assert(a =~= b);
    } else if a.len() > 0 && b.len() > 0 {
        assert((a[0] as int) != (b[0] as int));
    }
}

pub proof fn lemma_lex_asymmetric(a: Seq<char>, b: Seq<char>)
    ensures
        !(lex_lt(a, b) && lex_lt(b, a)),
    decreases a.len(),
{
    if a.len() > 0 && b.len() > 0 && a[0] == b[0] {
        lemma_lex_asymmetric(a.drop_first(), b.drop_first());
    }
}

pub proof fn lemma_lex_transitive(a: Seq<char>, b: Seq<char>, c: Seq<char>)
    requires
        lex_lt(a, b),
        lex_lt(b, c),
    ensures
        lex_lt(a, c),
    decreases a.len(),
{
    if a.len() > 0 && b.len() > 0 && c.len() > 0 {
        if a[0] == b[0] && b[0] == c[0] {
            lemma_lex_transitive(a.drop_first(), b.drop_first(), c.drop_first());
        }
    }
}

/// Strictly increasing in the lexicographic order.
pub open spec fn strictly_sorted(s: Seq<Seq<char>>) -> bool {
    forall|i: int, j: int| 0 <= i < j < s.len() ==> lex_lt(#[trigger] s[i], #[trigger] s[j])
}

pub open spec fn string_views(v: Seq<String>) -> Seq<Seq<char>> {
    v.map_values(|s: String| s@)
}

/// Compares two character sequences: -1, 0 or 1.
pub fn compare_chars(a: &[char], b: &[char]) -> (r: i8)
    ensures
        r == -1 <==> lex_lt(a@, b@),
        r == 1 <==> lex_lt(b@, a@),
        r == 0 <==> a@ == b@,
{
    let mut k: usize = 0;
    assert(a@.skip(0) =~= a@);
    assert(b@.skip(0) =~= b@);
    while k < a.len() && k < b.len() && a[k] == b[k]
        invariant
            k <= a@.len(),
            k <= b@.len(),
            a@.take(k as int) == b@.take(k as int),
            lex_lt(a@, b@) == lex_lt(a@.skip(k as int), b@.skip(k as int)),
            lex_lt(b@, a@) == lex_lt(b@.skip(k as int), a@.skip(k as int)),
        decreases a@.len() - k,
    {
        assert(a@.skip(k as int).drop_first() =~= a@.skip(k + 1));
        assert(b@.skip(k as int).drop_first() =~= b@.skip(k + 1));
        assert(a@.take(k + 1) =~= a@.take(k as int).push(a@[k as int]));
        assert(b@.take(k + 1) =~= b@.take(k as int).push(b@[k as int]));
        k = k + 1;
    }
    proof {
        lemma_lex_irreflexive(a@);
        lemma_lex_asymmetric(a@, b@);
    }
    let ghost ra = a@.skip(k as int);
    let ghost rb = b@.skip(k as int);
    if k < a.len() && k < b.len() {
        assert(ra[0] == a@[k as int] && rb[0] == b@[k as int]);
        assert(a@ != b@) by {
            assert(a@[k as int] != b@[k as int]);
        }
        if a[k] < b[k] {
            assert(lex_lt(ra, rb));
            -1
        } else {
            assert((b@[k as int] as int) < (a@[k as int] as int));
            assert(lex_lt(rb, ra));
            1
        }
    } else if k < a.len() {
        assert(a@.len() != b@.len());
        assert(rb.len() == 0 && ra.len() > 0);
        assert(lex_lt(rb, ra));
        1
    } else if k < b.len() {
        assert(a@.len() != b@.len());
        assert(ra.len() == 0 && rb.len() > 0);
        assert(lex_lt(ra, rb));
        -1
    } else {
        assert(a@ =~= a@.take(k as int));
        assert(b@ =~= b@.take(k as int));
        0
    }
}

/// Values ordered by a text key.
pub trait SortKey {
    spec fn sort_key(&self) -> Seq<char>;

    fn key_text(&self) -> (s: &str)
        ensures
            s@ == self.sort_key(),
    ;
}

impl SortKey for String {
    open spec fn sort_key(&self) -> Seq<char> {
        self@
    }

    fn key_text(&self) -> (s: &str) {
        self.as_str()
    }
}

pub open spec fn keys_of<T: SortKey>(v: Seq<T>) -> Seq<Seq<char>> {
    v.map_values(|x: T| x.sort_key())
}

/// Inserts `x` at its place among values strictly sorted by key, unless a
/// value with the same key is present.
pub fn sorted_insert<T: SortKey>(v: &mut Vec<T>, x: T)
    requires
        strictly_sorted(keys_of(old(v)@)),
    ensures
        strictly_sorted(keys_of(final(v)@)),
        keys_of(final(v)@).to_set() == keys_of(old(v)@).to_set().insert(x.sort_key()),
        forall|y: T| final(v)@.contains(y) ==> y == x || old(v)@.contains(y),
        forall|y: T| old(v)@.contains(y) ==> final(v)@.contains(y),
{
    let xc = chars_of(x.key_text());
    let mut j: usize = 0;
    let mut done = false;
    while !done && j < v.len()
        invariant
            j <= v@.len(),
            xc@ == x.sort_key(),
            v@ == old(v)@,
            strictly_sorted(keys_of(v@)),
            forall|m: int| 0 <= m < j ==> lex_lt(#[trigger] keys_of(v@)[m], x.sort_key()),
            done ==> j < v@.len() && lex_lt(x.sort_key(), keys_of(v@)[j as int]),
        decreases v@.len() - j + (if done {
            0int
        } else {
            1int
        }),
    {
        let cur = chars_of(v[j].key_text());
        let c = compare_chars(&cur, &xc);
        proof {
            lemma_lex_total(cur@, xc@);
        }
        assert(keys_of(v@)[j as int] == v@[j as int].sort_key());
        if c == 0 {
            assert(keys_of(v@).to_set().insert(x.sort_key()) =~= keys_of(v@).to_set()) by {
                assert(keys_of(v@).contains(x.sort_key()));
            }
            return;
        }
        if c == 1 {
            done = true;
        } else {
            assert(lex_lt(keys_of(v@)[j as int], x.sort_key()));
            j = j + 1;
        }
    }
    let ghost before = keys_of(v@);
    let ghost old_v = v@;
    v.insert(j, x);
    let ghost after = keys_of(v@);
    assert(after =~= before.insert(j as int, x.sort_key()));
    assert forall|a: int, b: int| 0 <= a < b < after.len() implies lex_lt(
        #[trigger] after[a],
        #[trigger] after[b],
    ) by {
        if b < j {
        } else if b == j {
        } else if a == j {
            if j < before.len() {
                if b - 1 > j {
                    assert(lex_lt(before[j as int], before[b - 1]));
                    lemma_lex_transitive(x.sort_key(), before[j as int], before[b - 1]);
                }
            }
        } else if a < j {
            assert(lex_lt(before[a], before[b - 1]) || a == b - 1);
        } else {
            assert(lex_lt(before[a - 1], before[b - 1]));
        }
    }
    assert(after.to_set() =~= before.to_set().insert(x.sort_key())) by {
        assert forall|e: Seq<char>| after.to_set().contains(e) implies before.to_set().insert(
            x.sort_key(),
        ).contains(e) by {
            let k = choose|k: int| 0 <= k < after.len() && after[k] == e;
            if k < j {
                assert(before[k] == e);
            } else if k > j {
                assert(before[k - 1] == e);
            }
        }
        assert forall|e: Seq<char>| before.to_set().insert(x.sort_key()).contains(e) implies after.to_set().contains(
            e,
        ) by {
            if e == x.sort_key() {
                assert(after[j as int] == e);
            } else {
                let k = choose|k: int| 0 <= k < before.len() && before[k] == e;
                if k < j {
                    assert(after[k] == e);
                } else {
                    assert(after[k + 1] == e);
                }
            }
        }
    }
    assert forall|y: T| v@.contains(y) implies y == x || old_v.contains(y) by {
        let k = choose|k: int| 0 <= k < v@.len() && v@[k] == y;
        if k < j {
            assert(old_v[k] == y);
        } else if k > j {
            assert(old_v[k - 1] == y);
        }
    }
    assert forall|y: T| old_v.contains(y) implies v@.contains(y) by {
        let k = choose|k: int| 0 <= k < old_v.len() && old_v[k] == y;
        if k < j {
            assert(v@[k] == y);
        } else {
            assert(v@[k + 1] == y);
        }
    }
}

/// The distinct strings of `v` in increasing order.
pub fn sorted_unique(v: Vec<String>) -> (r: Vec<String>)
    ensures
        strictly_sorted(string_views(r@)),
        string_views(r@).to_set() == string_views(v@).to_set(),
{
    let mut out: Vec<String> = Vec::new();
    let mut i: usize = 0;
    assert(keys_of(out@).to_set() =~= string_views(v@).take(0).to_set());
    while i < v.len()
        invariant
            i <= v@.len(),
            strictly_sorted(keys_of(out@)),
            keys_of(out@).to_set() == string_views(v@).take(i as int).to_set(),
        decreases v@.len() - i,
    {
        let x = v[i].clone();
        sorted_insert(&mut out, x);
        assert(string_views(v@).take(i + 1) =~= string_views(v@).take(i as int) + seq![v@[i as int]@]);
        proof {
            Seq::<Seq<char>>::lemma_to_set_insert_commutes(string_views(v@).take(i as int), v@[i as int]@);
        }
        i = i + 1;
    }
    assert(string_views(v@).take(i as int) =~= string_views(v@));
    assert(keys_of(out@) =~= string_views(out@));
    out
}


/// Whether `s` is one of the strings of `v`.
pub fn contains_str(v: &Vec<String>, s: &str) -> (b: bool)
    ensures
        b == string_views(v@).contains(s@),
{
    let mut i: usize = 0;
    while i < v.len()
        invariant
            i <= v@.len(),
            forall|k: int| 0 <= k < i ==> v@[k]@ != s@,
        decreases v@.len() - i,
    {
        if crate::text::str_is(v[i].as_str(), s) {
            assert(string_views(v@)[i as int] == s@);
            return true;
        }
        i = i + 1;
    }
    assert forall|k: int| 0 <= k < string_views(v@).len() implies string_views(v@)[k] != s@ by {
        assert(string_views(v@)[k] == v@[k]@);
    }
    false
}

/// Adds the strings of `xs` to the strictly sorted strings of `v`.
pub fn insert_all(v: &mut Vec<String>, xs: &Vec<String>)
    requires
        strictly_sorted(string_views(old(v)@)),
    ensures
        strictly_sorted(string_views(final(v)@)),
        string_views(final(v)@).to_set() == string_views(old(v)@).to_set() + string_views(
            xs@,
        ).to_set(),
{
    let ghost start = string_views(v@).to_set();
    let mut i: usize = 0;
    assert(keys_of(v@) =~= string_views(v@));
    assert(string_views(xs@).take(0).to_set() =~= Set::<Seq<char>>::empty());
    assert(start + Set::<Seq<char>>::empty() =~= start);
    while i < xs.len()
        invariant
            i <= xs@.len(),
            strictly_sorted(keys_of(v@)),
            keys_of(v@).to_set() == start + string_views(xs@).take(i as int).to_set(),
        decreases xs@.len() - i,
    {
        let x = xs[i].clone();
        sorted_insert(v, x);
        assert(string_views(xs@).take(i + 1) =~= string_views(xs@).take(i as int).push(xs@[i as int]@));
        proof {
            string_views(xs@).take(i as int).lemma_push_to_set_commute(xs@[i as int]@);
        }
        assert(keys_of(v@).to_set() =~= start + string_views(xs@).take(i + 1).to_set());
        i = i + 1;
    }
    assert(string_views(xs@).take(i as int) =~= string_views(xs@));
    assert(keys_of(v@) =~= string_views(v@));
}

/// Keeps, in order, the strings of the strictly sorted `v` that occur in
/// `keep`.
pub fn retain_in(v: &mut Vec<String>, keep: &Vec<String>)
    requires
        strictly_sorted(string_views(old(v)@)),
    ensures
        strictly_sorted(string_views(final(v)@)),
        string_views(final(v)@).to_set() == string_views(old(v)@).to_set().intersect(
            string_views(keep@).to_set(),
        ),
{
    let ghost src = string_views(v@);
    let mut out: Vec<String> = Vec::new();
    let mut i: usize = 0;
    while i < v.len()
        invariant
            i <= v@.len(),
            src == string_views(v@),
            strictly_sorted(src),
            strictly_sorted(string_views(out@)),
            forall|k: int|
                0 <= k < out@.len() ==> exists|j: int| 0 <= j < i && #[trigger] out@[k]@ == src[j],
            string_views(out@).to_set() == src.take(i as int).to_set().intersect(
                string_views(keep@).to_set(),
            ),
        decreases v@.len() - i,
    {
        let x = v[i].clone();
        let ghost xv = src[i as int];
        assert(x@ == xv);
        let inside = contains_str(keep, x.as_str());
        let ghost before = string_views(out@);
        if inside {
            out.push(x);
            assert(string_views(out@) =~= before.push(xv));
            assert forall|a: int, b: int|
                0 <= a < b < string_views(out@).len() implies lex_lt(
                #[trigger] string_views(out@)[a],
                #[trigger] string_views(out@)[b],
            ) by {
                if b == string_views(out@).len() - 1 {
                    assert(string_views(out@)[a] == out@[a]@);
                    let j = choose|j: int| 0 <= j < i && out@[a]@ == src[j];
                    assert(lex_lt(src[j], src[i as int]));
                } else {
                    assert(string_views(out@)[a] == before[a]);
                    assert(string_views(out@)[b] == before[b]);
                }
            }
            assert forall|k: int| 0 <= k < out@.len() implies exists|j: int|
                0 <= j < i + 1 && #[trigger] out@[k]@ == src[j] by {
                if k == out@.len() - 1 {
                    assert(out@[k]@ == src[i as int]);
                } else {
                    let j = choose|j: int| 0 <= j < i && out@[k]@ == src[j];
                    assert(out@[k]@ == src[j]);
                }
            }
            proof {
                before.lemma_push_to_set_commute(xv);
            }
        } else {
            assert forall|k: int| 0 <= k < out@.len() implies exists|j: int|
                0 <= j < i + 1 && #[trigger] out@[k]@ == src[j] by {
                let j = choose|j: int| 0 <= j < i && out@[k]@ == src[j];
                assert(out@[k]@ == src[j]);
            }
        }
        assert(src.take(i + 1) =~= src.take(i as int).push(xv));
        proof {
            src.take(i as int).lemma_push_to_set_commute(xv);
        }
        assert(string_views(out@).to_set() =~= src.take(i + 1).to_set().intersect(
            string_views(keep@).to_set(),
        ));
        i = i + 1;
    }
    assert(src.take(i as int) =~= src);
    *v = out;
}


/// A copy of the strings of `v`.
pub fn copy_strings(v: &Vec<String>) -> (r: Vec<String>)
    ensures
        string_views(r@) == string_views(v@),
{
    let mut out: Vec<String> = Vec::new();
    let mut i: usize = 0;
    while i < v.len()
        invariant
            i <= v@.len(),
            string_views(out@) == string_views(v@).take(i as int),
        decreases v@.len() - i,
    {
        let x = v[i].clone();
        assert(x@ == v@[i as int]@);
        let ghost before = out@;
        assert(string_views(before).len() == before.len());
        out.push(x);
        assert(out@ == before.push(x));
        assert(string_views(out@) =~= string_views(v@).take(i + 1)) by {
            assert forall|k: int| 0 <= k < i + 1 implies string_views(out@)[k] == string_views(
                v@,
            ).take(i + 1)[k] by {
                if k < i {
                    assert(string_views(out@)[k] == out@[k]@);
                    assert(out@[k] == before[k]);
                    assert(string_views(before)[k] == before[k]@);
                }
            }
        }
        i = i + 1;
    }
    assert(string_views(v@).take(i as int) =~= string_views(v@));
    out
}


/// Values ordered by a rank, then by a text key.
pub trait Ranked {
    spec fn rank(&self) -> nat;

    spec fn key(&self) -> Seq<char>;

    fn rank_exec(&self) -> (r: usize)
        ensures
            r == self.rank(),
    ;

    fn key_exec(&self) -> (k: &[char])
        ensures
            k@ == self.key(),
    ;
}

/// `a` sorts strictly before `b`.
pub open spec fn rank_lt(ra: nat, ka: Seq<char>, rb: nat, kb: Seq<char>) -> bool {
    ra < rb || (ra == rb && lex_lt(ka, kb))
}

/// Increasing by rank, then by key; equal values may repeat.
pub open spec fn ranked_sorted<T: Ranked>(s: Seq<T>) -> bool {
    forall|i: int, j: int|
        0 <= i < j < s.len() ==> !rank_lt(
            (#[trigger] s[j]).rank(),
            s[j].key(),
            (#[trigger] s[i]).rank(),
            s[i].key(),
        )
}

proof fn lemma_rank_not_lt_transitive(
    ra: nat,
    ka: Seq<char>,
    rb: nat,
    kb: Seq<char>,
    rc: nat,
    kc: Seq<char>,
)
    requires
        !rank_lt(rb, kb, ra, ka),
        !rank_lt(rc, kc, rb, kb),
    ensures
        !rank_lt(rc, kc, ra, ka),
{
    if ra == rb && rb == rc {
        lemma_lex_total(ka, kb);
        lemma_lex_total(kb, kc);
        if lex_lt(kc, ka) {
            if lex_lt(ka, kb) {
                lemma_lex_transitive(kc, ka, kb);
            } else if ka == kb {
            }
        }
    }
}

/// Sorts by rank, then by key, keeping every value (insertion sort).
pub fn sort_ranked<T: Ranked>(v: Vec<T>) -> (r: Vec<T>)
    ensures
        ranked_sorted(r@),
        r@.to_multiset() == v@.to_multiset(),
{
    broadcast use vstd::seq_lib::group_to_multiset_ensures;

    let mut out: Vec<T> = Vec::new();
    let mut src = v;
    let ghost orig = src@;
    let mut n: usize = src.len();
    assert(orig.take(0) =~= Seq::<T>::empty());
    while n > 0
        invariant
            n == src@.len(),
            ranked_sorted(out@),
            out@.to_multiset().add(src@.to_multiset()) == orig.to_multiset(),
        decreases n,
    {
        let ghost old_src = src@;
        let x = src.pop().unwrap();
        let ghost src_before = src@.push(x);
        assert(src_before =~= old_src);
        let xr = x.rank_exec();
        let xk = chars_of_slice(x.key_exec());
        let mut j: usize = 0;
        let mut found = false;
        while !found && j < out.len()
            invariant
                j <= out@.len(),
                xr == x.rank(),
                xk@ == x.key(),
                ranked_sorted(out@),
                forall|m: int| 0 <= m < j ==> !rank_lt(x.rank(), x.key(), (#[trigger] out@[m]).rank(), out@[m].key()),
                found ==> j < out@.len() && rank_lt(x.rank(), x.key(), out@[j as int].rank(), out@[j as int].key()),
            decreases out@.len() - j + (if found {
                0int
            } else {
                1int
            }),
        {
            let or = out[j].rank_exec();
            let ok = chars_of_slice(out[j].key_exec());
            let c = compare_chars(&xk, &ok);
            if xr < or || (xr == or && c == -1) {
                found = true;
            } else {
                j = j + 1;
            }
        }
        let ghost before = out@;
        out.insert(j, x);
        assert(out@ =~= before.insert(j as int, x));
        assert(out@.remove(j as int) =~= before);
        assert forall|a: int, b: int| 0 <= a < b < out@.len() implies !rank_lt(
            (#[trigger] out@[b]).rank(),
            out@[b].key(),
            (#[trigger] out@[a]).rank(),
            out@[a].key(),
        ) by {
            if b < j {
                assert(out@[a] == before[a] && out@[b] == before[b]);
            } else if b == j {
                assert(out@[a] == before[a]);
            } else if a == j {
                assert(out@[b] == before[b - 1]);
                if found {
                    let w = before[j as int];
                    if b - 1 > j {
                        assert(!rank_lt(w.rank(), w.key(), x.rank(), x.key())) by {
                            if rank_lt(w.rank(), w.key(), x.rank(), x.key()) {
                                if w.rank() == x.rank() {
                                    lemma_lex_asymmetric(w.key(), x.key());
                                }
                            }
                        }
                        lemma_rank_not_lt_transitive(
                            x.rank(),
                            x.key(),
                            w.rank(),
                            w.key(),
                            before[b - 1].rank(),
                            before[b - 1].key(),
                        );
                    } else {
                        if rank_lt(w.rank(), w.key(), x.rank(), x.key()) {
                            if w.rank() == x.rank() {
                                lemma_lex_asymmetric(w.key(), x.key());
                            }
                        }
                    }
                }
            } else if a < j {
                assert(out@[a] == before[a] && out@[b] == before[b - 1]);
            } else {
                assert(out@[a] == before[a - 1] && out@[b] == before[b - 1]);
            }
        }
        assert(out@.to_multiset() =~= before.to_multiset().insert(x)) by {
            assert(out@[j as int] == x);
            out@.to_multiset_ensures();
            assert(out@.remove(j as int).to_multiset() =~= out@.to_multiset().remove(out@[j as int]));
            assert(out@.contains(x));
            assert(out@.to_multiset().count(x) > 0);
        }
        proof {
            src@.to_multiset_ensures();
        }
        assert(src_before.to_multiset() =~= src@.to_multiset().insert(x));
        assert(out@.to_multiset().add(src@.to_multiset()) =~= before.to_multiset().add(
            src_before.to_multiset(),
        ));
        n = n - 1;
    }
    assert(src@.to_multiset() =~= vstd::multiset::Multiset::<T>::empty());
    out
}

/// The characters of a slice, as a vector.
pub fn chars_of_slice(s: &[char]) -> (v: Vec<char>)
    ensures
        v@ == s@,
{
    let mut v: Vec<char> = Vec::new();
    let mut i: usize = 0;
    while i < s.len()
        invariant
            i <= s@.len(),
            v@ == s@.take(i as int),
        decreases s@.len() - i,
    {
        v.push(s[i]);
        assert(v@ =~= s@.take(i + 1));
        i = i + 1;
    }
    assert(s@.take(i as int) =~= s@);
    v
}

} // verus!
