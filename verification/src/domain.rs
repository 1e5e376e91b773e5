//! Mount modes and per-module path rules.

use vstd::prelude::*;

use crate::text::{chars_eq, chars_of, has_prefix, slice_chars, starts_with_chars};

verus! {

/// How a path of a module is mounted.
#[derive(Debug, Clone, Copy, PartialEq, Eq, Structural)]
pub enum MountMode {
    Overlay,
    Magic,
    Kasumi,
    Ignore,
}

/// The global default mount policy of a configuration.
#[derive(Debug, Clone, Copy, PartialEq, Eq, Structural)]
pub enum DefaultMode {
    Overlay,
    Magic,
    Kasumi,
}

impl DefaultMode {
    pub open spec fn spec_mount_mode(self) -> MountMode {
        match self {
            DefaultMode::Overlay => MountMode::Overlay,
            DefaultMode::Magic => MountMode::Magic,
            DefaultMode::Kasumi => MountMode::Kasumi,
        }
    }

    /// The mount mode that this default selects.
    pub fn as_mount_mode(self) -> (m: MountMode)
        ensures
            m == self.spec_mount_mode(),
    {
        match self {
            DefaultMode::Overlay => MountMode::Overlay,
            DefaultMode::Magic => MountMode::Magic,
            DefaultMode::Kasumi => MountMode::Kasumi,
        }
    }
}

impl MountMode {
    /// The lower-case name of the mode, as configuration files spell it.
    pub open spec fn spec_strategy(self) -> Seq<char> {
        match self {
            MountMode::Overlay => seq!['o', 'v', 'e', 'r', 'l', 'a', 'y'],
            MountMode::Magic => seq!['m', 'a', 'g', 'i', 'c'],
            MountMode::Kasumi => seq!['k', 'a', 's', 'u', 'm', 'i'],
            MountMode::Ignore => seq!['i', 'g', 'n', 'o', 'r', 'e'],
        }
    }

    pub fn as_strategy(self) -> (s: &'static str)
        ensures
            s@ == self.spec_strategy(),
    {
        match self {
            MountMode::Overlay => {
                let s = "overlay";
                proof {
                    reveal_strlit("overlay");
                }
                assert(s@ =~= self.spec_strategy());
                s
            },
            MountMode::Magic => {
                let s = "magic";
                proof {
                    reveal_strlit("magic");
                }
                assert(s@ =~= self.spec_strategy());
                s
            },
            MountMode::Kasumi => {
                let s = "kasumi";
                proof {
                    reveal_strlit("kasumi");
                }
                assert(s@ =~= self.spec_strategy());
                s
            },
            MountMode::Ignore => {
                let s = "ignore";
                proof {
                    reveal_strlit("ignore");
                }
                assert(s@ =~= self.spec_strategy());
                s
            },
        }
    }
}

/// The mount policy of one module: a default mode and overrides for
/// relative paths (`"system/bin/tool"`), each covering its whole subtree.
#[derive(Debug, Clone)]
pub struct ModuleRules {
    pub default_mode: MountMode,
    pub paths: Vec<(String, MountMode)>,
}

/// Whether a rule for `key` covers the relative path `path`: the path is
/// the key itself or lies below it, on a component boundary.
pub open spec fn rule_covers(key: Seq<char>, path: Seq<char>) -> bool {
    path == key || has_prefix(path, key.push('/'))
}

/// Whether a rule for `key` lies strictly below the relative path `path`.
pub open spec fn rule_below(key: Seq<char>, path: Seq<char>) -> bool {
    has_prefix(key, path.push('/'))
}

/// The rule entries as plain values.
pub open spec fn rule_entries(paths: Seq<(String, MountMode)>) -> Seq<(Seq<char>, MountMode)> {
    paths.map_values(|p: (String, MountMode)| (p.0@, p.1))
}

/// Length of the key of a chosen rule.
pub open spec fn key_len(r: Option<(Seq<char>, MountMode)>) -> nat {
    match r {
        Some(e) => e.0.len(),
        None => 0,
    }
}

/// Among the entries that cover `path`, the first one of greatest key length.
pub open spec fn best_rule(entries: Seq<(Seq<char>, MountMode)>, path: Seq<char>) -> Option<
    (Seq<char>, MountMode),
>
    decreases entries.len(),
{
    if entries.len() == 0 {
        None
    } else {
        let prev = best_rule(entries.drop_last(), path);
        let e = entries.last();
        if rule_covers(e.0, path) && (prev is None || key_len(prev) < e.0.len()) {
            Some(e)
        } else {
            prev
        }
    }
}

impl ModuleRules {
    pub open spec fn entries(&self) -> Seq<(Seq<char>, MountMode)> {
        rule_entries(self.paths@)
    }

    /// The mode that applies to `path`: that of the longest rule covering
    /// it, else the default.
    pub open spec fn spec_mode(&self, path: Seq<char>) -> MountMode {
        match best_rule(self.entries(), path) {
            Some(e) => e.1,
            None => self.default_mode,
        }
    }

    /// Whether some rule lies strictly below `path`.
    pub open spec fn spec_has_descendant_rule(&self, path: Seq<char>) -> bool {
        exists|i: int| 0 <= i < self.paths@.len() && rule_below(#[trigger] self.paths@[i].0@, path)
    }

    /// The mode that applies to `path` when Kasumi may or may not be used.
    pub open spec fn spec_effective_mode(&self, path: Seq<char>, use_kasumi: bool) -> MountMode {
        let m = self.spec_mode(path);
        if m == MountMode::Kasumi && !use_kasumi {
            MountMode::Ignore
        } else {
            m
        }
    }

    /// Whether any rule, default or override, asks for Kasumi.
    pub open spec fn spec_requests_kasumi(&self) -> bool {
        self.default_mode == MountMode::Kasumi || exists|i: int|
            0 <= i < self.paths@.len() && #[trigger] self.paths@[i].1 == MountMode::Kasumi
    }

    /// Rules with the given default and no overrides.
    pub fn with_default(default_mode: MountMode) -> (r: ModuleRules)
        ensures
            r.default_mode == default_mode,
            r.paths@.len() == 0,
    {
        ModuleRules { default_mode, paths: Vec::new() }
    }

    pub fn get_mode(&self, path: &str) -> (m: MountMode)
        ensures
            m == self.spec_mode(path@),
    {
        let p = chars_of(path);
        let mut best_len: usize = 0;
        let mut best: Option<MountMode> = None;
        let mut i: usize = 0;
        while i < self.paths.len()
            invariant
                i <= self.paths@.len(),
                p@ == path@,
                match best_rule(rule_entries(self.paths@.take(i as int)), path@) {
                    Some(e) => best == Some(e.1) && best_len == e.0.len(),
                    None => best is None,
                },
            decreases self.paths@.len() - i,
        {
            let key = chars_of(self.paths[i].0.as_str());
            let covers = covers_chars(&key, &p);
            proof {
                assert(rule_entries(self.paths@.take(i + 1)).drop_last() =~= rule_entries(
                    self.paths@.take(i as int),
                ));
                assert(rule_entries(self.paths@.take(i + 1)).last() == (
                    self.paths@[i as int].0@,
                    self.paths@[i as int].1,
                ));
            }
            if covers && (best.is_none() || best_len < key.len()) {
                best = Some(self.paths[i].1);
                best_len = key.len();
            }
            i = i + 1;
        }
        assert(self.paths@.take(i as int) =~= self.paths@);
        match best {
            Some(m) => m,
            None => self.default_mode,
        }
    }

    pub fn effective_mode(&self, path: &str, use_kasumi: bool) -> (m: MountMode)
        ensures
            m == self.spec_effective_mode(path@, use_kasumi),
    {
        let m = self.get_mode(path);
        if m == MountMode::Kasumi && !use_kasumi {
            MountMode::Ignore
        } else {
            m
        }
    }

    pub fn has_descendant_rule(&self, path: &str) -> (b: bool)
        ensures
            b == self.spec_has_descendant_rule(path@),
    {
        let mut prefix = chars_of(path);
        prefix.push('/');
        let mut i: usize = 0;
        while i < self.paths.len()
            invariant
                i <= self.paths@.len(),
                prefix@ == path@.push('/'),
                forall|j: int| 0 <= j < i ==> !rule_below(#[trigger] self.paths@[j].0@, path@),
            decreases self.paths@.len() - i,
        {
            let key = chars_of(self.paths[i].0.as_str());
            if starts_with_chars(&key, &prefix) {
                return true;
            }
            i = i + 1;
        }
        false
    }

    /// Whether the module asks for Kasumi anywhere.
    pub fn requests_kasumi(&self) -> (b: bool)
        ensures
            b == self.spec_requests_kasumi(),
    {
        if self.default_mode == MountMode::Kasumi {
            return true;
        }
        let mut i: usize = 0;
        while i < self.paths.len()
            invariant
                i <= self.paths@.len(),
                self.default_mode != MountMode::Kasumi,
                forall|j: int| 0 <= j < i ==> #[trigger] self.paths@[j].1 != MountMode::Kasumi,
            decreases self.paths@.len() - i,
        {
            if self.paths[i].1 == MountMode::Kasumi {
                return true;
            }
            i = i + 1;
        }
        false
    }
}

/// Whether the rule key `key` covers `path`.
pub fn covers_chars(key: &[char], path: &[char]) -> (b: bool)
    ensures
        b == rule_covers(key@, path@),
{
    if chars_eq(key, path) {
        return true;
    }
    let mut k: Vec<char> = slice_chars(key, 0, key.len());
    assert(k@ =~= key@);
    k.push('/');
    assert(k@ =~= key@.push('/'));
    starts_with_chars(path, &k)
}

/// The rule chosen for a path covers it, and no covering rule has a longer key.
pub proof fn lemma_best_rule_is_longest(entries: Seq<(Seq<char>, MountMode)>, path: Seq<char>)
    ensures
        match best_rule(entries, path) {
            Some(e) => {
                &&& entries.contains(e)
                &&& rule_covers(e.0, path)
                &&& forall|i: int|
                    0 <= i < entries.len() && rule_covers(#[trigger] entries[i].0, path)
                        ==> entries[i].0.len() <= e.0.len()
            },
            None => forall|i: int| 0 <= i < entries.len() ==> !rule_covers(#[trigger] entries[i].0, path),
        },
    decreases entries.len(),
{
    if entries.len() > 0 {
        let rest = entries.drop_last();
        let last = entries.last();
        let n = entries.len() - 1;
        lemma_best_rule_is_longest(rest, path);
        assert(entries[n] == last);
        assert forall|i: int| 0 <= i < rest.len() implies entries[i] == #[trigger] rest[i] by {}
        let prev = best_rule(rest, path);
        if rule_covers(last.0, path) && (prev is None || key_len(prev) < last.0.len()) {
            assert(entries.contains(last));
            assert forall|i: int|
                0 <= i < entries.len() && rule_covers(#[trigger] entries[i].0, path)
                    implies entries[i].0.len() <= last.0.len() by {
                if i < n {
                    assert(rule_covers(rest[i].0, path));
                }
            }
        } else {
            match prev {
                Some(e) => {
                    let k = choose|k: int| 0 <= k < rest.len() && rest[k] == e;
                    assert(entries[k] == e);
                    assert forall|i: int|
                        0 <= i < entries.len() && rule_covers(#[trigger] entries[i].0, path)
                            implies entries[i].0.len() <= e.0.len() by {
                        if i < n {
                            assert(rule_covers(rest[i].0, path));
                        }
                    }
                },
                None => {
                    assert forall|i: int| 0 <= i < entries.len() implies !rule_covers(
                        #[trigger] entries[i].0,
                        path,
                    ) by {
                        if i < n {
                            assert(!rule_covers(rest[i].0, path));
                        }
                    }
                },
            }
        }
    }
}

/// The behaviour matrix: a path whose rule says Kasumi is skipped when
/// Kasumi is unavailable; every other rule result is kept as it is.
pub proof fn lemma_effective_mode_matrix(r: ModuleRules, path: Seq<char>, use_kasumi: bool)
    ensures
        r.spec_mode(path) == MountMode::Kasumi && !use_kasumi ==> r.spec_effective_mode(path, use_kasumi)
            == MountMode::Ignore,
        r.spec_mode(path) == MountMode::Kasumi && use_kasumi ==> r.spec_effective_mode(path, use_kasumi)
            == MountMode::Kasumi,
        r.spec_mode(path) != MountMode::Kasumi ==> r.spec_effective_mode(path, use_kasumi) == r.spec_mode(
            path,
        ),
{
}

} // verus!
