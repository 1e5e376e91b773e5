//! Which module directories take part in mounting, and with which rules.

use vstd::prelude::*;

use crate::config::{Config, copy_rules};
use crate::defs;
use crate::domain::{ModuleRules, MountMode};
use crate::flavor::BuildFlavor;
use crate::order::{SortKey, keys_of, sorted_insert, strictly_sorted};
use crate::text::{chars_of, str_is};
use crate::validation::{is_valid_module_id, module_prop_id_matches_dir, spec_module_prop_id, spec_valid_module_id};

verus! {

/// A module selected for mounting.
#[derive(Debug, Clone)]
pub struct Module {
    pub id: String,
    pub source_path: String,
    pub rules: ModuleRules,
}

impl SortKey for Module {
    open spec fn sort_key(&self) -> Seq<char> {
        self.id@
    }

    fn key_text(&self) -> (s: &str) {
        self.id.as_str()
    }
}

pub open spec fn is_upper(c: char) -> bool {
    'A' <= c && c <= 'Z'
}

/// Equal characters up to ASCII case.
pub open spec fn ci_char_eq(a: char, b: char) -> bool {
    ||| a == b
    ||| is_upper(a) && (a as int) + 32 == (b as int)
    ||| is_upper(b) && (b as int) + 32 == (a as int)
}

/// Equal names up to ASCII case (`eq_ignore_ascii_case`).
pub open spec fn ci_eq(a: Seq<char>, b: Seq<char>) -> bool {
    a.len() == b.len() && forall|i: int| 0 <= i < a.len() ==> ci_char_eq(#[trigger] a[i], b[i])
}

fn ci_char_eq_exec(a: char, b: char) -> (r: bool)
    ensures
        r == ci_char_eq(a, b),
{
    a == b || ('A' <= a && a <= 'Z' && (a as u32) + 32 == (b as u32)) || ('A' <= b && b <= 'Z'
        && (b as u32) + 32 == (a as u32))
}

pub fn eq_ignore_ascii_case(a: &str, b: &str) -> (r: bool)
    ensures
        r == ci_eq(a@, b@),
{
    let x = chars_of(a);
    let y = chars_of(b);
    if x.len() != y.len() {
        return false;
    }
    let mut i: usize = 0;
    while i < x.len()
        invariant
            i <= x@.len() == y@.len(),
            x@ == a@,
            y@ == b@,
            forall|j: int| 0 <= j < i ==> ci_char_eq(#[trigger] x@[j], y@[j]),
        decreases x@.len() - i,
    {
        if !ci_char_eq_exec(x[i], y[i]) {
            return false;
        }
        i = i + 1;
    }
    true
}

/// Some entry of a directory listing has `name`, up to ASCII case.
pub open spec fn listing_has(entries: Seq<String>, name: Seq<char>) -> bool {
    exists|i: int| 0 <= i < entries.len() && ci_eq(#[trigger] entries[i]@, name)
}

/// Whether a directory whose entries are `entries` holds `name`, up to
/// ASCII case.
pub fn dir_contains_entry_case_insensitive(entries: &Vec<String>, name: &str) -> (b: bool)
    ensures
        b == listing_has(entries@, name@),
{
    let mut i: usize = 0;
    while i < entries.len()
        invariant
            i <= entries@.len(),
            forall|j: int| 0 <= j < i ==> !ci_eq(#[trigger] entries@[j]@, name@),
        decreases entries@.len() - i,
    {
        if eq_ignore_ascii_case(entries[i].as_str(), name) {
            return true;
        }
        i = i + 1;
    }
    false
}

/// The entries of a listing that name `name` up to ASCII case, in listing
/// order.
pub open spec fn spec_case_variants(entries: Seq<String>, name: Seq<char>) -> Seq<String> {
    entries.filter(|e: String| ci_eq(e@, name))
}

/// The entries of a listing left once the variants of `name` are removed.
pub open spec fn spec_without_variants(entries: Seq<String>, name: Seq<char>) -> Seq<String> {
    entries.filter(|e: String| !ci_eq(e@, name))
}

/// The entries that removing the marker `name` deletes: every entry of the
/// directory listing `entries` that names it in some letter case, in
/// listing order.
pub fn case_variants(entries: &Vec<String>, name: &str) -> (r: Vec<String>)
    ensures
        r@.map_values(|s: String| s@) == spec_case_variants(entries@, name@).map_values(
            |s: String| s@,
        ),
{
    let ghost keep = |e: String| ci_eq(e@, name@);
    let mut r: Vec<String> = Vec::new();
    let mut i: usize = 0;
    assert(entries@.take(0) =~= Seq::<String>::empty());
    assert(Seq::<String>::empty().filter(keep) =~= Seq::<String>::empty()) by {
        reveal(Seq::filter);
    }
    while i < entries.len()
        invariant
            i <= entries@.len(),
            keep == (|e: String| ci_eq(e@, name@)),
            r@.map_values(|s: String| s@) == entries@.take(i as int).filter(keep).map_values(
                |s: String| s@,
            ),
        decreases entries@.len() - i,
    {
        proof {
            entries@.take(i as int).lemma_filter_push(entries@[i as int], keep);
            assert(entries@.take(i + 1) =~= entries@.take(i as int).push(entries@[i as int]));
        }
        if eq_ignore_ascii_case(entries[i].as_str(), name) {
            let ghost before = r@;
            let e = entries[i].clone();
            r.push(e);
            assert(r@.map_values(|s: String| s@) =~= before.map_values(|s: String| s@).push(
                entries@[i as int]@,
            ));
            assert(entries@.take(i as int).filter(keep).push(entries@[i as int]).map_values(
                |s: String| s@,
            ) =~= entries@.take(i as int).filter(keep).map_values(|s: String| s@).push(
                entries@[i as int]@,
            ));
        }
        i = i + 1;
    }
    assert(entries@.take(i as int) =~= entries@);
    r
}

/// Removing a marker removes every variant of it: the entries that
/// `case_variants` selects all name the marker, each entry that names it is
/// selected, and in what remains of the directory the marker is found in no
/// letter case.
pub proof fn lemma_removal_takes_every_variant(entries: Seq<String>, name: Seq<char>)
    ensures
        forall|i: int| #![auto]
            0 <= i < spec_case_variants(entries, name).len() ==> ci_eq(
                spec_case_variants(entries, name)[i]@,
                name,
            ),
        forall|e: String| #[trigger] entries.contains(e) && ci_eq(e@, name) ==> spec_case_variants(
            entries,
            name,
        ).contains(e),
        !listing_has(spec_without_variants(entries, name), name),
        listing_has(entries, name) <==> spec_case_variants(entries, name).len() > 0,
{
    let sel = |e: String| ci_eq(e@, name);
    let rest = |e: String| !ci_eq(e@, name);
    let v = spec_case_variants(entries, name);
    let w = spec_without_variants(entries, name);
    assert forall|i: int| 0 <= i < v.len() implies ci_eq(#[trigger] v[i]@, name) by {
        entries.filter_lemma(sel);
    }
    assert forall|e: String| #[trigger] entries.contains(e) && ci_eq(e@, name) implies v.contains(e) by {
        entries.filter_lemma(sel);
    }
    assert(!listing_has(w, name)) by {
        entries.filter_lemma(rest);
        if listing_has(w, name) {
            let i = choose|i: int| 0 <= i < w.len() && ci_eq(#[trigger] w[i]@, name);
            assert(rest(w[i]));
        }
    }
    if listing_has(entries, name) {
        let i = choose|i: int| 0 <= i < entries.len() && ci_eq(#[trigger] entries[i]@, name);
        entries.filter_lemma(sel);
        assert(entries.contains(entries[i]));
        assert(v.contains(entries[i]));
    }
    if v.len() > 0 {
        entries.filter_lemma(sel);
        let x = v[0];
        assert(v.contains(x));
        entries.lemma_filter_contains_rev(sel, x);
        assert(entries.contains(x));
        assert(ci_eq(x@, name));
        let j = choose|j: int| 0 <= j < entries.len() && entries[j] == x;
        assert(ci_eq(entries[j]@, name));
    }
}

pub open spec fn spec_is_reserved_module_dir(id: Seq<char>) -> bool {
    ||| id == "hybrid-mount"@
    ||| id == "hybrid_mount"@
    ||| id == "lost+found"@
    ||| id == ".git"@
    ||| id == ".idea"@
    ||| id == ".vscode"@
}

/// Directories under the module root that are never modules.
pub fn is_reserved_module_dir(id: &str) -> (b: bool)
    ensures
        b == spec_is_reserved_module_dir(id@),
{
    str_is(id, "hybrid-mount") || str_is(id, "hybrid_mount") || str_is(id, "lost+found")
        || str_is(id, ".git") || str_is(id, ".idea") || str_is(id, ".vscode")
}

/// The mount mode selected by a marker file in a module's root, for
/// builds without a control plane: `overlay` wins over `magic`.
pub open spec fn spec_mount_mode_marker(entries: Seq<String>) -> Option<MountMode> {
    if listing_has(entries, MountMode::Overlay.spec_strategy()) {
        Some(MountMode::Overlay)
    } else if listing_has(entries, MountMode::Magic.spec_strategy()) {
        Some(MountMode::Magic)
    } else {
        None
    }
}

pub fn module_mount_mode_marker(entries: &Vec<String>) -> (m: Option<MountMode>)
    ensures
        m == spec_mount_mode_marker(entries@),
{
    if dir_contains_entry_case_insensitive(entries, MountMode::Overlay.as_strategy()) {
        Some(MountMode::Overlay)
    } else if dir_contains_entry_case_insensitive(entries, MountMode::Magic.as_strategy()) {
        Some(MountMode::Magic)
    } else {
        None
    }
}

/// The markers that keep a module from being mounted, in the order
/// `disable`, `remove`, `mount_error`, `skip_mount`.
pub open spec fn spec_block_markers(entries: Seq<String>) -> Seq<Seq<char>> {
    let a: Seq<Seq<char>> = if listing_has(entries, defs::DISABLE_FILE_NAME@) {
        seq![defs::DISABLE_FILE_NAME@]
    } else {
        seq![]
    };
    let b: Seq<Seq<char>> = if listing_has(entries, defs::REMOVE_FILE_NAME@) {
        seq![defs::REMOVE_FILE_NAME@]
    } else {
        seq![]
    };
    let c: Seq<Seq<char>> = if listing_has(entries, defs::MOUNT_ERROR_FILE_NAME@) {
        seq![defs::MOUNT_ERROR_FILE_NAME@]
    } else {
        seq![]
    };
    let d: Seq<Seq<char>> = if listing_has(entries, defs::SKIP_MOUNT_FILE_NAME@) {
        seq![defs::SKIP_MOUNT_FILE_NAME@]
    } else {
        seq![]
    };
    a + b + c + d
}

pub fn mount_block_markers(entries: &Vec<String>) -> (m: Vec<&'static str>)
    ensures
        m@.map_values(|s: &str| s@) == spec_block_markers(entries@),
{
    let mut m: Vec<&'static str> = Vec::new();
    let ghost g: Seq<Seq<char>> = seq![];
    if dir_contains_entry_case_insensitive(entries, defs::DISABLE_FILE_NAME) {
        m.push(defs::DISABLE_FILE_NAME);
    }
    if dir_contains_entry_case_insensitive(entries, defs::REMOVE_FILE_NAME) {
        m.push(defs::REMOVE_FILE_NAME);
    }
    if dir_contains_entry_case_insensitive(entries, defs::MOUNT_ERROR_FILE_NAME) {
        m.push(defs::MOUNT_ERROR_FILE_NAME);
    }
    if dir_contains_entry_case_insensitive(entries, defs::SKIP_MOUNT_FILE_NAME) {
        m.push(defs::SKIP_MOUNT_FILE_NAME);
    }
    assert(m@.map_values(|s: &str| s@) =~= spec_block_markers(entries@));
    m
}

pub open spec fn spec_has_block_marker(entries: Seq<String>) -> bool {
    ||| listing_has(entries, defs::DISABLE_FILE_NAME@)
    ||| listing_has(entries, defs::REMOVE_FILE_NAME@)
    ||| listing_has(entries, defs::MOUNT_ERROR_FILE_NAME@)
    ||| listing_has(entries, defs::SKIP_MOUNT_FILE_NAME@)
}

pub fn has_mount_block_marker(entries: &Vec<String>) -> (b: bool)
    ensures
        b == spec_has_block_marker(entries@),
{
    let m = mount_block_markers(entries);
    assert(spec_block_markers(entries@).len() == 0 <==> !spec_has_block_marker(entries@));
    m.len() > 0
}

/// The rules of module `module_id`: the configured default, replaced by the
/// module's own rule entry if it has one, and for builds without a control
/// plane by the mode its marker file selects.
pub open spec fn spec_rules_default(config: &Config, module_id: Seq<char>, marker: Option<MountMode>) -> MountMode {
    match marker {
        Some(m) => m,
        None => match config.rule_index(module_id) {
            Some(i) => config.rules@[i].1.default_mode,
            None => config.default_mode.spec_mount_mode(),
        },
    }
}

pub open spec fn spec_rules_entries(config: &Config, module_id: Seq<char>) -> Seq<(Seq<char>, MountMode)> {
    match config.rule_index(module_id) {
        Some(i) => config.rules@[i].1.entries(),
        None => seq![],
    }
}

/// The rules for `module_id`; `marker` is the mode its marker file selects,
/// which only builds without a control plane consult.
pub fn load_module_rules(config: &Config, module_id: &str, marker: Option<MountMode>) -> (r: ModuleRules)
    ensures
        r.default_mode == spec_rules_default(config, module_id@, marker),
        r.entries() == spec_rules_entries(config, module_id@),
{
    let mut rules = match config.find_rules(module_id) {
        Some(i) => {
            let r = copy_rules(&config.rules[i].1);
            proof {
                let k = config.rule_index(module_id@);
                assert(config.rules@[i as int].0@ == module_id@);
                assert(k is Some);
                let kk = k->0;
                assert(kk == i as int) by {
                    if kk < i as int {
                        assert(config.rules@[kk].0@ != module_id@);
                    } else if kk > i as int {
                    }
                }
            }
            r
        },
        None => {
            let r = ModuleRules::with_default(config.default_mode.as_mount_mode());
            assert(r.entries() =~= Seq::<(Seq<char>, MountMode)>::empty());
            r
        },
    };
    if let Some(m) = marker {
        rules.default_mode = m;
    }
    rules
}

/// One entry of the module root as read from disk: its name, whether it is
/// a directory, the text of its `module.prop` when that is a regular file
/// holding valid UTF-8, and the names of the entries inside it.
#[derive(Debug, Clone)]
pub struct ModuleDirEntry {
    pub name: String,
    pub is_dir: bool,
    pub module_prop: Option<String>,
    pub entries: Vec<String>,
}

/// Whether the scan selects an entry: a directory, not reserved, named by a
/// valid identifier, with a `module.prop` that declares the same identifier,
/// not blacklisted and without a blocking marker.
pub open spec fn spec_scan_accepts(config: &Config, e: ModuleDirEntry) -> bool {
    &&& e.is_dir
    &&& !spec_is_reserved_module_dir(e.name@)
    &&& spec_valid_module_id(e.name@)
    &&& e.module_prop matches Some(p) && (spec_module_prop_id(p@) matches Some(id)
        && spec_valid_module_id(id) && id == e.name@)
    &&& !config.module_blacklist@.map_values(|s: String| s@).contains(e.name@)
    &&& !spec_has_block_marker(e.entries@)
}

pub open spec fn spec_marker_for(flavor: BuildFlavor, e: ModuleDirEntry) -> Option<MountMode> {
    if flavor.spec_enable_control_plane() {
        None
    } else {
        spec_mount_mode_marker(e.entries@)
    }
}

/// The module that the scan makes of an accepted entry.
pub open spec fn spec_module_matches(
    config: &Config,
    flavor: BuildFlavor,
    source_dir: Seq<char>,
    e: ModuleDirEntry,
    m: Module,
) -> bool {
    &&& m.id@ == e.name@
    &&& m.source_path@ == defs::join_path(source_dir, e.name@)
    &&& m.rules.default_mode == spec_rules_default(config, e.name@, spec_marker_for(flavor, e))
    &&& m.rules.entries() == spec_rules_entries(config, e.name@)
}

/// `m` is the module made of one of the accepted entries.
pub open spec fn spec_produced_by(
    config: &Config,
    flavor: BuildFlavor,
    source_dir: Seq<char>,
    entries: Seq<ModuleDirEntry>,
    m: Module,
) -> bool {
    exists|i: int|
        0 <= i < entries.len() && spec_scan_accepts(config, entries[i]) && spec_module_matches(
            config,
            flavor,
            source_dir,
            #[trigger] entries[i],
            m,
        )
}

/// A module named in the configuration's blacklist is never selected by
/// the scan, whatever its directory holds, and so is never among the
/// scanned modules.
pub proof fn lemma_blacklisted_modules_are_skipped(
    config: &Config,
    flavor: BuildFlavor,
    source_dir: Seq<char>,
    entries: Seq<ModuleDirEntry>,
    e: ModuleDirEntry,
    m: Module,
)
    ensures
        (exists|j: int| 0 <= j < config.module_blacklist@.len() && #[trigger] config.module_blacklist@[j]@ == e.name@)
            ==> !spec_scan_accepts(config, e),
        spec_produced_by(config, flavor, source_dir, entries, m) ==> forall|j: int|
            0 <= j < config.module_blacklist@.len() ==> #[trigger] config.module_blacklist@[j]@ != m.id@,
{
    if exists|j: int| 0 <= j < config.module_blacklist@.len() && #[trigger] config.module_blacklist@[j]@ == e.name@ {
        let j = choose|j: int| 0 <= j < config.module_blacklist@.len() && #[trigger] config.module_blacklist@[j]@ == e.name@;
        assert(config.module_blacklist@.map_values(|s: String| s@)[j] == e.name@);
    }
    if spec_produced_by(config, flavor, source_dir, entries, m) {
        let i = choose|i: int|
            0 <= i < entries.len() && spec_scan_accepts(config, entries[i]) && spec_module_matches(
                config,
                flavor,
                source_dir,
                #[trigger] entries[i],
                m,
            );
        assert forall|j: int| 0 <= j < config.module_blacklist@.len() implies #[trigger] config.module_blacklist@[j]@
            != m.id@ by {
            if config.module_blacklist@[j]@ == m.id@ {
                assert(config.module_blacklist@.map_values(|s: String| s@)[j] == entries[i].name@);
            }
        }
    }
}

fn contains_string(v: &Vec<String>, s: &str) -> (b: bool)
    ensures
        b == v@.map_values(|x: String| x@).contains(s@),
{
    let ghost names = v@.map_values(|x: String| x@);
    let mut i: usize = 0;
    while i < v.len()
        invariant
            i <= v@.len(),
            names == v@.map_values(|x: String| x@),
            forall|j: int| 0 <= j < i ==> names[j] != s@,
        decreases v@.len() - i,
    {
        if str_is(v[i].as_str(), s) {
            assert(names[i as int] == s@);
            return true;
        }
        i = i + 1;
    }
    false
}

/// Whether the scan selects `e` (see `spec_scan_accepts`).
pub fn scan_accepts(config: &Config, e: &ModuleDirEntry) -> (b: bool)
    ensures
        b == spec_scan_accepts(config, *e),
{
    if !e.is_dir {
        return false;
    }
    if is_reserved_module_dir(e.name.as_str()) {
        return false;
    }
    if !is_valid_module_id(e.name.as_str()) {
        return false;
    }
    let prop_ok = match &e.module_prop {
        Some(p) => module_prop_id_matches_dir(p.as_str(), e.name.as_str()),
        None => false,
    };
    if !prop_ok {
        return false;
    }
    if contains_string(&config.module_blacklist, e.name.as_str()) {
        return false;
    }
    !has_mount_block_marker(&e.entries)
}

/// The modules under `source_dir` whose entries are `entries`, ordered by
/// identifier.
pub fn scan(source_dir: &str, config: &Config, flavor: BuildFlavor, entries: &Vec<ModuleDirEntry>) -> (modules: Vec<Module>)
    ensures
        strictly_sorted(keys_of(modules@)),
        forall|k: int|
            0 <= k < modules@.len() ==> spec_produced_by(
                config,
                flavor,
                source_dir@,
                entries@,
                #[trigger] modules@[k],
            ),
        forall|i: int| 0 <= i < entries@.len() && spec_scan_accepts(config, #[trigger] entries@[i])
            ==> keys_of(modules@).contains(entries@[i].name@),
{
    let mut out: Vec<Module> = Vec::new();
    let mut i: usize = 0;
    while i < entries.len()
        invariant
            i <= entries@.len(),
            strictly_sorted(keys_of(out@)),
            forall|m: Module|
                #[trigger] out@.contains(m) ==> spec_produced_by(config, flavor, source_dir@, entries@, m),
            forall|j: int| 0 <= j < i && spec_scan_accepts(config, #[trigger] entries@[j])
                ==> keys_of(out@).contains(entries@[j].name@),
        decreases entries@.len() - i,
    {
        let e = &entries[i];
        if scan_accepts(config, e) {
            let marker = if flavor.enable_control_plane() {
                None
            } else {
                module_mount_mode_marker(&e.entries)
            };
            let rules = load_module_rules(config, e.name.as_str(), marker);
            let m = Module {
                id: e.name.clone(),
                source_path: defs::join_name(source_dir, e.name.as_str()),
                rules,
            };
            assert(spec_module_matches(config, flavor, source_dir@, entries@[i as int], m));
            assert(spec_produced_by(config, flavor, source_dir@, entries@, m));
            let ghost before = out@;
            sorted_insert(&mut out, m);
            proof {
                assert forall|mm: Module| out@.contains(mm) implies spec_produced_by(
                    config,
                    flavor,
                    source_dir@,
                    entries@,
                    mm,
                ) by {
                    if mm != m {
                        assert(before.contains(mm));
                    }
                }
                assert(keys_of(out@).to_set().contains(m.id@));
                assert forall|j: int| 0 <= j < i + 1 && spec_scan_accepts(config, #[trigger] entries@[j])
                    implies keys_of(out@).contains(entries@[j].name@) by {
                    if j < i {
                        assert(keys_of(before).contains(entries@[j].name@));
                        assert(keys_of(before).to_set().contains(entries@[j].name@));
                        assert(keys_of(out@).to_set().contains(entries@[j].name@));
                    }
                }
            }
        }
        i = i + 1;
    }
    proof {
        assert forall|k: int| 0 <= k < out@.len() implies spec_produced_by(
            config,
            flavor,
            source_dir@,
            entries@,
            #[trigger] out@[k],
        ) by {
            assert(out@.contains(out@[k]));
        }
    }
    out
}

/// The precedence of policies for a path of a module: the longest path
/// override that covers the path decides; where none covers it, the mode
/// of the module's marker file (builds without a control plane), else the
/// module's configured default, else the global default.
pub proof fn lemma_policy_precedence(
    config: &Config,
    module_id: Seq<char>,
    marker: Option<MountMode>,
    r: ModuleRules,
    path: Seq<char>,
)
    requires
        r.default_mode == spec_rules_default(config, module_id, marker),
        r.entries() == spec_rules_entries(config, module_id),
    ensures
        (exists|i: int| 0 <= i < r.entries().len() && crate::domain::rule_covers(#[trigger] r.entries()[i].0, path))
            ==> exists|i: int|
            0 <= i < r.entries().len() && crate::domain::rule_covers(#[trigger] r.entries()[i].0, path)
                && r.spec_mode(path) == r.entries()[i].1 && forall|j: int|
                0 <= j < r.entries().len() && crate::domain::rule_covers(#[trigger] r.entries()[j].0, path)
                    ==> r.entries()[j].0.len() <= r.entries()[i].0.len(),
        (forall|i: int| 0 <= i < r.entries().len() ==> !crate::domain::rule_covers(#[trigger] r.entries()[i].0, path))
            ==> r.spec_mode(path) == match marker {
            Some(m) => m,
            None => match config.rule_index(module_id) {
                Some(k) => config.rules@[k].1.default_mode,
                None => config.default_mode.spec_mount_mode(),
            },
        },
{
    crate::domain::lemma_best_rule_is_longest(r.entries(), path);
    match crate::domain::best_rule(r.entries(), path) {
        Some(e) => {
            let k = choose|k: int| 0 <= k < r.entries().len() && r.entries()[k] == e;
            assert(crate::domain::rule_covers(r.entries()[k].0, path));
        },
        None => {},
    }
}

} // verus!
