//! The module list and metadata that the control plane serves.

use vstd::prelude::*;

use crate::config::Config;
use crate::defs::{join_name, join_path};
use crate::domain::{ModuleRules, MountMode};
use crate::flavor::BuildFlavor;
use crate::inventory::{
    dir_contains_entry_case_insensitive, has_mount_block_marker, is_reserved_module_dir,
    listing_has, load_module_rules, module_mount_mode_marker, spec_has_block_marker,
    spec_is_reserved_module_dir, spec_mount_mode_marker, spec_rules_default, spec_rules_entries,
};
use crate::order::{contains_str, string_views};
use crate::runtime_state::RuntimeState;
use crate::text::{
    chars_of, has_substring, lines_of, split_lines, split_words, string_from_chars,
    trim, trim_chars, trim_start, trim_start_chars, views, words_of,
};
use crate::path::{path_prefix, path_starts_with};
use crate::validation::{find_char, lemma_first_index, prop_key, prop_value};

verus! {

/// What `module.prop` says of a module, with defaults where it says
/// nothing.
#[derive(Debug, Clone)]
pub struct ModuleMetadata {
    pub name: String,
    pub version: String,
    pub author: String,
    pub description: String,
}

/// The metadata as plain values.
pub struct MetaView {
    pub name: Seq<char>,
    pub version: Seq<char>,
    pub author: Seq<char>,
    pub description: Seq<char>,
}

impl ModuleMetadata {
    pub open spec fn view_of(&self) -> MetaView {
        MetaView {
            name: self.name@,
            version: self.version@,
            author: self.author@,
            description: self.description@,
        }
    }
}

pub open spec fn default_meta(module_id: Seq<char>) -> MetaView {
    MetaView {
        name: module_id,
        version: "unknown"@,
        author: "unknown"@,
        description: "No description"@,
    }
}

/// One line of `module.prop`: blank lines and comments say nothing; a
/// `key=value` line with a non-empty value sets `name`, `version`,
/// `author` or `description`.
pub open spec fn meta_line(m: MetaView, line: Seq<char>) -> MetaView {
    let t = trim(line);
    if t.len() == 0 || t[0] == '#' {
        m
    } else {
        match prop_key(t) {
            None => m,
            Some(k) => {
                let v = prop_value(t);
                if v.len() == 0 {
                    m
                } else if k == "name"@ {
                    MetaView { name: v, ..m }
                } else if k == "version"@ {
                    MetaView { version: v, ..m }
                } else if k == "author"@ {
                    MetaView { author: v, ..m }
                } else if k == "description"@ {
                    MetaView { description: v, ..m }
                } else {
                    m
                }
            },
        }
    }
}

pub open spec fn meta_from(m: MetaView, lines: Seq<Seq<char>>) -> MetaView
    decreases lines.len(),
{
    if lines.len() == 0 {
        m
    } else {
        meta_from(meta_line(m, lines[0]), lines.drop_first())
    }
}

/// The metadata of a module from the text of its `module.prop`, or the
/// defaults where it has none that could be read.
pub open spec fn spec_module_metadata(module_id: Seq<char>, raw: Option<Seq<char>>) -> MetaView {
    match raw {
        None => default_meta(module_id),
        Some(r) => meta_from(default_meta(module_id), lines_of(r)),
    }
}

pub fn default_module_metadata(module_id: &str) -> (m: ModuleMetadata)
    ensures
        m.view_of() == default_meta(module_id@),
{
    ModuleMetadata {
        name: string_from_chars(&chars_of(module_id)),
        version: "unknown".to_string(),
        author: "unknown".to_string(),
        description: "No description".to_string(),
    }
}

fn apply_meta_line(m: &mut ModuleMetadata, line: &Vec<char>)
    ensures
        final(m).view_of() == meta_line(old(m).view_of(), line@),
{
    let t = trim_chars(line);
    if t.len() == 0 || t[0] == '#' {
        return;
    }
    let i = find_char(&t, '=');
    if i >= t.len() {
        return;
    }
    proof {
        lemma_first_index(t@, '=');
    }
    let key_raw = crate::text::slice_chars(&t, 0, i);
    assert(key_raw@ =~= t@.take(i as int));
    let key = trim_chars(&key_raw);
    let value_raw = crate::text::slice_chars(&t, i + 1, t.len());
    assert(value_raw@ =~= t@.skip(i + 1));
    let value = trim_chars(&value_raw);
    if value.len() == 0 {
        return;
    }
    let k = string_from_chars(&key);
    let v = string_from_chars(&value);
    if crate::text::str_is(k.as_str(), "name") {
        m.name = v;
    } else if crate::text::str_is(k.as_str(), "version") {
        m.version = v;
    } else if crate::text::str_is(k.as_str(), "author") {
        m.author = v;
    } else if crate::text::str_is(k.as_str(), "description") {
        m.description = v;
    }
}

/// The metadata of a module (see `spec_module_metadata`); `raw` is the
/// text of its `module.prop`, `None` where it is missing, no regular file,
/// larger than the limit or unreadable.
pub fn read_module_metadata(module_id: &str, raw: Option<&str>) -> (m: ModuleMetadata)
    ensures
        m.view_of() == spec_module_metadata(module_id@, match raw {
            Some(r) => Some(r@),
            None => None,
        }),
{
    let mut m = default_module_metadata(module_id);
    match raw {
        None => m,
        Some(r) => {
            let c = chars_of(r);
            let lines = split_lines(&c);
            let ghost start = m.view_of();
            let mut i: usize = 0;
            assert(views(lines@).skip(0) =~= views(lines@));
            while i < lines.len()
                invariant
                    i <= lines@.len(),
                    views(lines@) == lines_of(r@),
                    start == default_meta(module_id@),
                    meta_from(start, views(lines@)) == meta_from(
                        m.view_of(),
                        views(lines@).skip(i as int),
                    ),
                decreases lines@.len() - i,
            {
                proof {
                    let rest = views(lines@).skip(i as int);
                    assert(rest[0] == lines@[i as int]@);
                    assert(rest.drop_first() =~= views(lines@).skip(i + 1));
                }
                apply_meta_line(&mut m, &lines[i]);
                i = i + 1;
            }
            m
        },
    }
}

/// The version the control plane reports.
#[derive(Debug, Clone)]
pub struct VersionPayload {
    pub version: String,
}

/// The version from the manager's own `module.prop`, or the package
/// version where that says `unknown`.
pub fn build_version_payload(metadata: &ModuleMetadata, package_version: &str) -> (p: VersionPayload)
    ensures
        p.version@ == if metadata.version@ == "unknown"@ {
            package_version@
        } else {
            metadata.version@
        },
{
    if crate::text::str_is(metadata.version.as_str(), "unknown") {
        VersionPayload { version: string_from_chars(&chars_of(package_version)) }
    } else {
        VersionPayload { version: metadata.version.clone() }
    }
}

/// A word with the leading backslashes and backquotes removed.
pub open spec fn strip_marks(w: Seq<char>) -> Seq<char>
    decreases w.len(),
{
    if w.len() > 0 && (w[0] == '\\' || w[0] == '`') {
        strip_marks(w.drop_first())
    } else {
        w
    }
}

pub open spec fn first_word(s: Seq<char>) -> Seq<char> {
    if words_of(s).len() > 0 {
        words_of(s)[0]
    } else {
        seq![]
    }
}

pub open spec fn is_mount_verb(w: Seq<char>) -> bool {
    w == "mount"@ || w == "mkdir"@ || w == "touch"@
}

/// Whether a script line runs a command that mounts or prepares mount
/// points: `mount`, `mkdir` or `touch`, directly or through `busybox`, or
/// a command whose name holds `mount` or `bind`. Blank lines and comments
/// run nothing.
pub open spec fn line_mounts(line: Seq<char>) -> bool {
    let t = trim(line);
    if t.len() == 0 || t[0] == '#' {
        false
    } else {
        let w = strip_marks(first_word(t));
        if is_mount_verb(w) {
            true
        } else if w == "busybox"@ && is_mount_verb(first_word(trim_start(t.skip(7)))) {
            true
        } else {
            has_substring(w, "mount"@) || has_substring(w, "bind"@)
        }
    }
}

pub open spec fn spec_contains_mount_commands(content: Seq<char>) -> bool {
    exists|i: int| 0 <= i < lines_of(content).len() && line_mounts(#[trigger] lines_of(content)[i])
}

fn first_word_of(s: &Vec<char>) -> (w: Vec<char>)
    ensures
        w@ == first_word(s@),
{
    let words = split_words(s);
    if words.len() > 0 {
        assert(views(words@)[0] == words@[0]@);
        crate::path::copy_chars(&words[0])
    } else {
        Vec::new()
    }
}

fn strip_marks_of(w: &Vec<char>) -> (r: Vec<char>)
    ensures
        r@ == strip_marks(w@),
{
    let mut i: usize = 0;
    assert(w@.skip(0) =~= w@);
    while i < w.len() && (w[i] == '\\' || w[i] == '`')
        invariant
            i <= w@.len(),
            strip_marks(w@) == strip_marks(w@.skip(i as int)),
        decreases w@.len() - i,
    {
        assert(w@.skip(i as int).drop_first() =~= w@.skip(i + 1));
        i = i + 1;
    }
    let r = crate::text::slice_chars(w, i, w.len());
    assert(r@ =~= w@.skip(i as int));
    r
}

fn mount_verb(w: &Vec<char>) -> (b: bool)
    ensures
        b == is_mount_verb(w@),
{
    let s = string_from_chars(w);
    crate::text::str_is(s.as_str(), "mount") || crate::text::str_is(s.as_str(), "mkdir")
        || crate::text::str_is(s.as_str(), "touch")
}

fn line_mounts_exec(line: &Vec<char>) -> (b: bool)
    ensures
        b == line_mounts(line@),
{
    let t = trim_chars(line);
    if t.len() == 0 || t[0] == '#' {
        return false;
    }
    let w = strip_marks_of(&first_word_of(&t));
    if mount_verb(&w) {
        return true;
    }
    let ws = string_from_chars(&w);
    if crate::text::str_is(ws.as_str(), "busybox") {
        proof {
            reveal_strlit("busybox");
        }
        assert(t@.len() >= 7) by {
            assert(w@.len() == 7);
            lemma_strip_marks_len(first_word(t@));
            lemma_first_word_len(t@);
        }
        let rest_raw = crate::text::slice_chars(&t, 7, t.len());
        assert(rest_raw@ =~= t@.skip(7));
        let rest = trim_start_chars(&rest_raw);
        let sub = first_word_of(&rest);
        if mount_verb(&sub) {
            return true;
        }
    }
    crate::text::contains_substring(ws.as_str(), "mount") || crate::text::contains_substring(
        ws.as_str(),
        "bind",
    )
}

proof fn lemma_strip_marks_len(w: Seq<char>)
    ensures
        strip_marks(w).len() <= w.len(),
    decreases w.len(),
{
    if w.len() > 0 && (w[0] == '\\' || w[0] == '`') {
        lemma_strip_marks_len(w.drop_first());
    }
}

proof fn lemma_words_from_len(s: Seq<char>, cur: Seq<char>)
    ensures
        words_from_len_ok(s, cur),
    decreases s.len(),
{
    if s.len() > 0 {
        if crate::text::is_ws(s[0]) {
            lemma_words_from_len(s.drop_first(), seq![]);
        } else {
            lemma_words_from_len(s.drop_first(), cur.push(s[0]));
        }
    }
}

/// The first word after a partial word `cur` is no longer than `cur` and
/// the rest together.
pub open spec fn words_from_len_ok(s: Seq<char>, cur: Seq<char>) -> bool {
    crate::text::words_from(s, cur).len() > 0 ==> crate::text::words_from(s, cur)[0].len() <= cur.len() + s.len()
}

proof fn lemma_first_word_len(s: Seq<char>)
    ensures
        first_word(s).len() <= s.len(),
{
    lemma_words_from_len(s, seq![]);
}

/// Whether script text holds a line that mounts (see `line_mounts`).
pub fn contains_mount_commands(content: &str) -> (b: bool)
    ensures
        b == spec_contains_mount_commands(content@),
{
    let c = chars_of(content);
    let lines = split_lines(&c);
    let mut i: usize = 0;
    while i < lines.len()
        invariant
            i <= lines@.len(),
            views(lines@) == lines_of(content@),
            forall|j: int| 0 <= j < i ==> !line_mounts(#[trigger] lines_of(content@)[j]),
        decreases lines@.len() - i,
    {
        assert(views(lines@)[i as int] == lines@[i as int]@);
        if line_mounts_exec(&lines[i]) {
            assert(line_mounts(lines_of(content@)[i as int]));
            return true;
        }
        i = i + 1;
    }
    false
}

/// The first value recorded for `key` among sorted pairs.
pub open spec fn lookup(pairs: Seq<(String, String)>, key: Seq<char>) -> Option<Seq<char>>
    decreases pairs.len(),
{
    if pairs.len() == 0 {
        None
    } else if pairs[0].0@ == key {
        Some(pairs[0].1@)
    } else {
        lookup(pairs.drop_first(), key)
    }
}

fn lookup_exec(pairs: &Vec<(String, String)>, key: &str) -> (r: Option<String>)
    ensures
        crate::validation::opt_view(r) == lookup(pairs@, key@),
{
    let mut i: usize = 0;
    assert(pairs@.skip(0) =~= pairs@);
    while i < pairs.len()
        invariant
            i <= pairs@.len(),
            lookup(pairs@, key@) == lookup(pairs@.skip(i as int), key@),
        decreases pairs@.len() - i,
    {
        assert(pairs@.skip(i as int)[0] == pairs@[i as int]);
        assert(pairs@.skip(i as int).drop_first() =~= pairs@.skip(i + 1));
        if crate::text::str_is(pairs[i].0.as_str(), key) {
            return Some(pairs[i].1.clone());
        }
        i = i + 1;
    }
    None
}

/// What the runtime state says of modules: by which backend each was
/// mounted, which were skipped, blacklisted or failed, and why.
pub struct RuntimeModuleIndex<'a> {
    pub state: &'a RuntimeState,
}

pub open spec fn has_id(v: Seq<String>, id: Seq<char>) -> bool {
    string_views(v).contains(id)
}

/// The backend that mounted a module: overlay first, then magic, then
/// Kasumi.
pub open spec fn spec_runtime_mode(st: RuntimeState, id: Seq<char>) -> Option<MountMode> {
    if has_id(st.overlay_modules@, id) {
        Some(MountMode::Overlay)
    } else if has_id(st.magic_modules@, id) {
        Some(MountMode::Magic)
    } else if has_id(st.kasumi_modules@, id) {
        Some(MountMode::Kasumi)
    } else {
        None
    }
}

/// Why a module failed to mount, when the state records a failure: the
/// recorded reason, or a generic one.
pub open spec fn spec_runtime_error(st: RuntimeState, id: Seq<char>) -> Option<Seq<char>> {
    if !has_id(st.mount_error_modules@, id) {
        None
    } else {
        match lookup(st.mount_error_reasons@, id) {
            Some(r) => Some(r),
            None => Some("mount error recorded"@),
        }
    }
}

impl<'a> RuntimeModuleIndex<'a> {
    pub fn new(state: &'a RuntimeState) -> (i: Self)
        ensures
            *i.state == *state,
    {
        RuntimeModuleIndex { state }
    }

    pub fn mode(&self, id: &str) -> (m: Option<MountMode>)
        ensures
            m == spec_runtime_mode(*self.state, id@),
    {
        if contains_str(&self.state.overlay_modules, id) {
            Some(MountMode::Overlay)
        } else if contains_str(&self.state.magic_modules, id) {
            Some(MountMode::Magic)
        } else if contains_str(&self.state.kasumi_modules, id) {
            Some(MountMode::Kasumi)
        } else {
            None
        }
    }

    /// Neither skipped nor blacklisted.
    pub fn enabled(&self, id: &str) -> (b: bool)
        ensures
            b == (!has_id(self.state.skip_mount_modules@, id@) && !has_id(
                self.state.blacklisted_modules@,
                id@,
            )),
    {
        !contains_str(&self.state.skip_mount_modules, id) && !contains_str(
            &self.state.blacklisted_modules,
            id,
        )
    }

    pub fn is_blacklisted(&self, id: &str) -> (b: bool)
        ensures
            b == has_id(self.state.blacklisted_modules@, id@),
    {
        contains_str(&self.state.blacklisted_modules, id)
    }

    pub fn mount_error_reason(&self, id: &str) -> (r: Option<String>)
        ensures
            crate::validation::opt_view(r) == spec_runtime_error(*self.state, id@),
    {
        if !contains_str(&self.state.mount_error_modules, id) {
            return None;
        }
        match lookup_exec(&self.state.mount_error_reasons, id) {
            Some(r) => Some(r),
            None => Some("mount error recorded".to_string()),
        }
    }
}

/// One module as the control plane lists it.
#[derive(Debug, Clone)]
pub struct ModuleListEntry {
    pub id: String,
    pub mode: MountMode,
    pub is_mounted: bool,
    pub enabled: bool,
    pub source_path: String,
    pub rules: ModuleRules,
    pub mount_error: Option<String>,
    pub suggest_ignore: bool,
}

/// What the module's directory shows: the names it holds, and whether one
/// of its scripts mounts (see `has_suspicious_shell_commands`).
#[derive(Debug, Clone)]
pub struct ModuleProbe {
    pub listing: Vec<String>,
    pub suspicious: bool,
}

/// A shell script of a module directory as the scan sees it: its file
/// name, whether it is a regular file, its size, and its text where it
/// could be read.
#[derive(Debug, Clone)]
pub struct ScriptProbe {
    pub name: String,
    pub is_file: bool,
    pub len: u64,
    pub content: Option<String>,
}

/// Scripts larger than this are not read.
pub const MAX_SH_SCAN_BYTES: u64 = 262144;

/// The extension of a file name: what follows its last `'.'`, unless the
/// name starts with its only `'.'` or has none.
pub open spec fn extension(name: Seq<char>) -> Option<Seq<char>> {
    let i = last_dot(name, name.len() as int);
    if i <= 0 {
        None
    } else {
        Some(name.skip(i + 1))
    }
}

/// Index of the last `'.'` in the first `n` characters, or -1.
pub open spec fn last_dot(name: Seq<char>, n: int) -> int
    decreases n,
{
    if n <= 0 {
        -1
    } else if name[n - 1] == '.' {
        n - 1
    } else {
        last_dot(name, n - 1)
    }
}

/// Whether a script is read: a regular file within the size limit whose
/// extension is `sh` in any letter case.
pub open spec fn spec_scannable(s: ScriptProbe) -> bool {
    &&& extension(s.name@) matches Some(e) && crate::inventory::ci_eq(e, "sh"@)
    &&& s.is_file
    &&& s.len <= MAX_SH_SCAN_BYTES
}

pub open spec fn spec_suspicious(scripts: Seq<ScriptProbe>) -> bool {
    exists|i: int|
        0 <= i < scripts.len() && spec_scannable(#[trigger] scripts[i]) && (scripts[i].content matches Some(c)
            && spec_contains_mount_commands(c@))
}

fn extension_of(name: &str) -> (r: Option<String>)
    ensures
        crate::validation::opt_view(r) == extension(name@),
{
    let c = chars_of(name);
    let mut n: usize = c.len();
    while n > 0 && c[n - 1] != '.'
        invariant
            n <= c@.len(),
            c@ == name@,
            last_dot(name@, name@.len() as int) == last_dot(name@, n as int),
        decreases n,
    {
        n = n - 1;
    }
    if n <= 1 {
        return None;
    }
    let e = crate::text::slice_chars(&c, n, c.len());
    assert(e@ =~= name@.skip(n as int));
    Some(string_from_chars(&e))
}

/// Whether one of the module's scripts holds a line that mounts: such a
/// module does its own mounting, and the user is told to ignore it.
pub fn has_suspicious_shell_commands(scripts: &Vec<ScriptProbe>) -> (b: bool)
    ensures
        b == spec_suspicious(scripts@),
{
    let mut i: usize = 0;
    while i < scripts.len()
        invariant
            i <= scripts@.len(),
            forall|j: int|
                0 <= j < i ==> !(spec_scannable(#[trigger] scripts@[j]) && (scripts@[j].content matches Some(
                    c,
                ) && spec_contains_mount_commands(c@))),
        decreases scripts@.len() - i,
    {
        let s = &scripts[i];
        let scannable = match extension_of(s.name.as_str()) {
            Some(e) => crate::inventory::eq_ignore_ascii_case(e.as_str(), "sh"),
            None => false,
        } && s.is_file && s.len <= MAX_SH_SCAN_BYTES;
        if scannable {
            match &s.content {
                Some(c) => {
                    if contains_mount_commands(c.as_str()) {
                        assert(spec_scannable(scripts@[i as int]));
                        return true;
                    }
                },
                None => {},
            }
        }
        i = i + 1;
    }
    false
}

/// The mode that a module's marker file selects, which only builds
/// without a control plane consult.
pub open spec fn probe_marker(flavor: BuildFlavor, listing: Seq<String>) -> Option<MountMode> {
    if flavor.spec_enable_control_plane() {
        None
    } else {
        spec_mount_mode_marker(listing)
    }
}

/// Why a module is listed as failed when the state records nothing: its
/// `mount_error` marker.
pub open spec fn spec_error_reason(st: RuntimeState, id: Seq<char>, listing: Seq<String>) -> Option<Seq<char>> {
    match spec_runtime_error(st, id) {
        Some(r) => Some(r),
        None => if listing_has(listing, "mount_error"@) {
            Some("mount_error marker present"@)
        } else {
            None
        },
    }
}

/// Whether `e` lists module `id` at `source_path`: a blacklisted module
/// is listed as ignored and failed; another is listed with the backend
/// that mounted it (when the listing counts it as mounted) or its default
/// mode, and with its recorded or marked failure; `scanned` tells a
/// listing of a module directory (where the configured blacklist counts
/// and only enabled modules count as mounted) from one of the runtime
/// state (where skipped modules count as disabled).
pub open spec fn entry_matches(
    e: ModuleListEntry,
    config: Config,
    flavor: BuildFlavor,
    st: RuntimeState,
    id: Seq<char>,
    source_path: Seq<char>,
    probe: ModuleProbe,
    scanned: bool,
) -> bool {
    let runtime_bl = has_id(st.blacklisted_modules@, id);
    let bl = runtime_bl || (scanned && has_id(config.module_blacklist@, id));
    let blocked = spec_has_block_marker(probe.listing@);
    let enabled = if scanned {
        !bl && !blocked
    } else {
        !bl && !has_id(st.skip_mount_modules@, id) && !blocked
    };
    let rm = if scanned {
        if enabled {
            spec_runtime_mode(st, id)
        } else {
            None
        }
    } else if bl {
        None
    } else {
        spec_runtime_mode(st, id)
    };
    let err = if bl {
        Some("blacklisted"@)
    } else {
        spec_error_reason(st, id, probe.listing@)
    };
    &&& e.id@ == id
    &&& e.source_path@ == source_path
    &&& e.rules.default_mode == spec_rules_default(&config, id, probe_marker(flavor, probe.listing@))
    &&& e.rules.entries() == spec_rules_entries(&config, id)
    &&& e.mode == if bl {
        MountMode::Ignore
    } else {
        match rm {
            Some(m) => m,
            None => e.rules.default_mode,
        }
    }
    &&& e.is_mounted == rm is Some
    &&& e.enabled == enabled
    &&& crate::validation::opt_view(e.mount_error) == err
    &&& e.suggest_ignore == (err is Some && probe.suspicious)
}

fn error_reason(index: &RuntimeModuleIndex, id: &str, listing: &Vec<String>) -> (r: Option<String>)
    ensures
        crate::validation::opt_view(r) == spec_error_reason(*index.state, id@, listing@),
{
    match index.mount_error_reason(id) {
        Some(r) => Some(r),
        None => if dir_contains_entry_case_insensitive(listing, "mount_error") {
            Some("mount_error marker present".to_string())
        } else {
            None
        },
    }
}

/// Lists one module (see `entry_matches`).
pub fn module_entry(
    config: &Config,
    flavor: BuildFlavor,
    state: &RuntimeState,
    id: &str,
    source_path: String,
    probe: &ModuleProbe,
    scanned: bool,
) -> (e: ModuleListEntry)
    ensures
        entry_matches(e, *config, flavor, *state, id@, source_path@, *probe, scanned),
{
    let index = RuntimeModuleIndex::new(state);
    let marker = if flavor.enable_control_plane() {
        None
    } else {
        module_mount_mode_marker(&probe.listing)
    };
    let rules = load_module_rules(config, id, marker);
    let runtime_bl = index.is_blacklisted(id);
    let bl = runtime_bl || (scanned && contains_str(&config.module_blacklist, id));
    let blocked = has_mount_block_marker(&probe.listing);
    let enabled = if scanned {
        !bl && !blocked
    } else {
        !bl && index.enabled(id) && !blocked
    };
    let rm = if scanned {
        if enabled {
            index.mode(id)
        } else {
            None
        }
    } else if bl {
        None
    } else {
        index.mode(id)
    };
    let mode = if bl {
        MountMode::Ignore
    } else {
        match rm {
            Some(m) => m,
            None => rules.default_mode,
        }
    };
    let mount_error = if bl {
        Some("blacklisted".to_string())
    } else {
        error_reason(&index, id, &probe.listing)
    };
    let suggest_ignore = mount_error.is_some() && probe.suspicious;
    ModuleListEntry {
        id: string_from_chars(&chars_of(id)),
        mode,
        is_mounted: rm.is_some(),
        enabled,
        source_path,
        rules,
        mount_error,
        suggest_ignore,
    }
}

/// An entry of a directory as a listing sees it: its name, whether it is
/// a directory, and the names it holds.
#[derive(Debug, Clone)]
pub struct DirProbe {
    pub name: String,
    pub is_dir: bool,
    pub listing: Vec<String>,
}

pub open spec fn marks_error(d: DirProbe) -> bool {
    d.is_dir && listing_has(d.listing@, "mount_error"@) && !spec_is_reserved_module_dir(d.name@)
}

pub open spec fn spec_marker_modules(ds: Seq<DirProbe>) -> Seq<Seq<char>>
    decreases ds.len(),
{
    if ds.len() == 0 {
        seq![]
    } else if marks_error(ds.last()) {
        spec_marker_modules(ds.drop_last()).push(ds.last().name@)
    } else {
        spec_marker_modules(ds.drop_last())
    }
}

/// The module directories that hold a `mount_error` marker, in listing
/// order, reserved names left out.
pub fn collect_mount_error_marker_modules(dirs: &Vec<DirProbe>) -> (r: Vec<String>)
    ensures
        string_views(r@) == spec_marker_modules(dirs@),
{
    let mut out: Vec<String> = Vec::new();
    let mut i: usize = 0;
    assert(dirs@.take(0) =~= Seq::<DirProbe>::empty());
    while i < dirs.len()
        invariant
            i <= dirs@.len(),
            string_views(out@) == spec_marker_modules(dirs@.take(i as int)),
        decreases dirs@.len() - i,
    {
        proof {
            assert(dirs@.take(i + 1).drop_last() =~= dirs@.take(i as int));
            assert(dirs@.take(i + 1).last() == dirs@[i as int]);
        }
        let d = &dirs[i];
        if d.is_dir && dir_contains_entry_case_insensitive(&d.listing, "mount_error")
            && !is_reserved_module_dir(d.name.as_str()) {
            let ghost before = string_views(out@);
            out.push(d.name.clone());
            assert(string_views(out@) =~= before.push(d.name@));
        }
        i = i + 1;
    }
    assert(dirs@.take(i as int) =~= dirs@);
    out
}

pub open spec fn rule_keys(config: Config) -> Seq<Seq<char>> {
    config.rules@.map_values(|p: (String, ModuleRules)| p.0@)
}

/// The modules that the runtime listing covers: every module the state
/// names, those marked failed on disk, and those with configured rules;
/// reserved names left out.
pub open spec fn spec_runtime_ids(config: Config, st: RuntimeState, markers: Seq<Seq<char>>) -> Set<
    Seq<char>,
> {
    (string_views(st.overlay_modules@).to_set() + string_views(st.magic_modules@).to_set()
        + string_views(st.kasumi_modules@).to_set() + string_views(st.skip_mount_modules@).to_set()
        + string_views(st.blacklisted_modules@).to_set() + string_views(
        st.mount_error_modules@,
    ).to_set() + markers.to_set() + rule_keys(config).to_set()).filter(
        |id: Seq<char>| !spec_is_reserved_module_dir(id),
    )
}

/// The identifiers of the runtime listing, sorted, each once.
pub fn runtime_module_ids(config: &Config, state: &RuntimeState, markers: &Vec<String>) -> (r: Vec<
    String,
>)
    ensures
        crate::order::strictly_sorted(string_views(r@)),
        string_views(r@).to_set() == spec_runtime_ids(*config, *state, string_views(markers@)),
{
    let mut all: Vec<String> = Vec::new();
    assert(string_views(all@) =~= Seq::<Seq<char>>::empty());
    assert(string_views(all@).to_set() =~= Set::<Seq<char>>::empty());
    crate::order::insert_all(&mut all, &state.overlay_modules);
    crate::order::insert_all(&mut all, &state.magic_modules);
    crate::order::insert_all(&mut all, &state.kasumi_modules);
    crate::order::insert_all(&mut all, &state.skip_mount_modules);
    crate::order::insert_all(&mut all, &state.blacklisted_modules);
    crate::order::insert_all(&mut all, &state.mount_error_modules);
    crate::order::insert_all(&mut all, markers);
    let mut keys: Vec<String> = Vec::new();
    let mut i: usize = 0;
    while i < config.rules.len()
        invariant
            i <= config.rules@.len(),
            string_views(keys@) == rule_keys(*config).take(i as int),
        decreases config.rules@.len() - i,
    {
        let ghost before = string_views(keys@);
        let key = config.rules[i].0.clone();
        assert(key@ == config.rules@[i as int].0@);
        keys.push(key);
        assert(rule_keys(*config)[i as int] == config.rules@[i as int].0@);
        assert(string_views(keys@) =~= before.push(key@));
        assert(rule_keys(*config).take(i + 1) =~= rule_keys(*config).take(i as int).push(
            rule_keys(*config)[i as int],
        ));
        i = i + 1;
    }
    assert(rule_keys(*config).take(i as int) =~= rule_keys(*config));
    crate::order::insert_all(&mut all, &keys);
    let ghost union = string_views(all@);
    let mut out: Vec<String> = Vec::new();
    let mut k: usize = 0;
    while k < all.len()
        invariant
            k <= all@.len(),
            union == string_views(all@),
            forall|s: Seq<char>|
                #![trigger string_views(out@).contains(s)]
                #![trigger union.take(k as int).contains(s)]
                string_views(out@).contains(s) <==> (union.take(k as int).contains(s)
                    && !spec_is_reserved_module_dir(s)),
        decreases all@.len() - k,
    {
        let ghost before = string_views(out@);
        let reserved = is_reserved_module_dir(all[k].as_str());
        if !reserved {
            out.push(all[k].clone());
            assert(string_views(out@) =~= before.push(all@[k as int]@));
        }
        proof {
            let x = all@[k as int]@;
            assert(union.take(k + 1) =~= union.take(k as int).push(x));
            assert forall|s: Seq<char>|
                #![trigger string_views(out@).contains(s)]
                #![trigger union.take(k + 1).contains(s)]
                string_views(out@).contains(s) <==> (union.take(k + 1).contains(s)
                    && !spec_is_reserved_module_dir(s)) by {
                if s == x {
                    assert(union.take(k + 1)[k as int] == x);
                    if !reserved {
                        assert(string_views(out@)[before.len() as int] == x);
                    }
                } else {
                    if string_views(out@).contains(s) {
                        let i = string_views(out@).index_of(s);
                        if !reserved {
                            assert(i < before.len());
                            assert(before[i] == s);
                        }
                        assert(before.contains(s));
                        assert(union.take(k as int).contains(s));
                        let j = union.take(k as int).index_of(s);
                        assert(union.take(k + 1)[j] == s);
                    }
                    if union.take(k + 1).contains(s) && !spec_is_reserved_module_dir(s) {
                        let j = union.take(k + 1).index_of(s);
                        assert(j < k);
                        assert(union.take(k as int)[j] == s);
                        assert(before.contains(s));
                        let i = before.index_of(s);
                        assert(string_views(out@)[i] == s);
                    }
                }
            }
        }
        k = k + 1;
    }
    let r = crate::order::sorted_unique(out);
    proof {
        assert(union.take(k as int) =~= union);
        assert forall|s: Seq<char>|
            string_views(r@).to_set().contains(s) <==> spec_runtime_ids(
                *config,
                *state,
                string_views(markers@),
            ).contains(s) by {
            assert(union.to_set().contains(s) == union.contains(s));
            assert(string_views(out@).to_set().contains(s) == string_views(out@).contains(s));
            assert(string_views(r@).to_set().contains(s) == string_views(out@).to_set().contains(s));
            assert(string_views(out@).contains(s) <==> (union.take(k as int).contains(s)
                && !spec_is_reserved_module_dir(s)));
        }
        assert(string_views(r@).to_set() =~= spec_runtime_ids(
            *config,
            *state,
            string_views(markers@),
        ));
    }
    r
}

impl crate::order::SortKey for ModuleListEntry {
    open spec fn sort_key(&self) -> Seq<char> {
        self.id@
    }

    fn key_text(&self) -> (s: &str) {
        self.id.as_str()
    }
}

/// An entry of a module directory being listed: its name, whether it is a
/// directory, and what its directory shows.
#[derive(Debug, Clone)]
pub struct ScannedEntry {
    pub name: String,
    pub is_dir: bool,
    pub probe: ModuleProbe,
}

pub open spec fn scan_kept(d: ScannedEntry) -> bool {
    d.is_dir && !spec_is_reserved_module_dir(d.name@)
}

/// Lists the modules of a directory: its subdirectories with names that
/// are not reserved, each listed as `entry_matches` says with
/// `scanned`, in increasing order of identifier.
pub fn build_scanned_modules_payload(
    config: &Config,
    flavor: BuildFlavor,
    state: &RuntimeState,
    source_dir: &str,
    entries: &Vec<ScannedEntry>,
) -> (r: Vec<ModuleListEntry>)
    ensures
        crate::order::strictly_sorted(crate::order::keys_of(r@)),
        crate::order::keys_of(r@).to_set() == entries@.filter(|d: ScannedEntry| scan_kept(d)).map_values(
            |d: ScannedEntry| d.name@,
        ).to_set(),
        forall|y: ModuleListEntry|
            r@.contains(y) ==> exists|i: int|
                0 <= i < entries@.len() && scan_kept(#[trigger] entries@[i]) && entry_matches(
                    y,
                    *config,
                    flavor,
                    *state,
                    entries@[i].name@,
                    join_path(source_dir@, entries@[i].name@),
                    entries@[i].probe,
                    true,
                ),
{
    let ghost kept = |d: ScannedEntry| scan_kept(d);
    let ghost name_of = |d: ScannedEntry| d.name@;
    let mut out: Vec<ModuleListEntry> = Vec::new();
    let mut i: usize = 0;
    proof {
        assert(crate::order::keys_of(out@) =~= Seq::<Seq<char>>::empty());
        assert(entries@.take(0).filter(kept).map_values(name_of) =~= Seq::<Seq<char>>::empty()) by {
            reveal(Seq::filter);
        }
        assert(crate::order::keys_of(out@).to_set() =~= Set::<Seq<char>>::empty());
    }
    while i < entries.len()
        invariant
            i <= entries@.len(),
            kept == (|d: ScannedEntry| scan_kept(d)),
            name_of == (|d: ScannedEntry| d.name@),
            crate::order::strictly_sorted(crate::order::keys_of(out@)),
            crate::order::keys_of(out@).to_set() == entries@.take(i as int).filter(kept).map_values(
                name_of,
            ).to_set(),
            forall|y: ModuleListEntry|
                out@.contains(y) ==> exists|j: int|
                    0 <= j < entries@.len() && scan_kept(#[trigger] entries@[j]) && entry_matches(
                        y,
                        *config,
                        flavor,
                        *state,
                        entries@[j].name@,
                        join_path(source_dir@, entries@[j].name@),
                        entries@[j].probe,
                        true,
                    ),
        decreases entries@.len() - i,
    {
        let d = &entries[i];
        proof {
            assert(entries@.take(i + 1) =~= entries@.take(i as int).push(entries@[i as int]));
            entries@.take(i as int).lemma_filter_push(entries@[i as int], kept);
        }
        if d.is_dir && !is_reserved_module_dir(d.name.as_str()) {
            let path = join_name(source_dir, d.name.as_str());
            let e = module_entry(config, flavor, state, d.name.as_str(), path, &d.probe, true);
            let ghost before = out@;
            crate::order::sorted_insert(&mut out, e);
            proof {
                let f = entries@.take(i as int).filter(kept);
                assert(f.push(entries@[i as int]).map_values(name_of) =~= f.map_values(name_of).push(
                    d.name@,
                ));
                f.map_values(name_of).lemma_push_to_set_commute(d.name@);
                assert forall|y: ModuleListEntry| out@.contains(y) implies exists|j: int|
                    0 <= j < entries@.len() && scan_kept(#[trigger] entries@[j]) && entry_matches(
                        y,
                        *config,
                        flavor,
                        *state,
                        entries@[j].name@,
                        join_path(source_dir@, entries@[j].name@),
                        entries@[j].probe,
                        true,
                    ) by {
                    if y == e {
                        assert(scan_kept(entries@[i as int]));
                    } else {
                        assert(before.contains(y));
                    }
                }
            }
        }
        i = i + 1;
    }
    assert(entries@.take(i as int) =~= entries@);
    out
}

/// Lists the modules of the runtime state, one entry per identifier with
/// what its directory under the modules directory shows (see
/// `runtime_module_ids` for which identifiers), in the order given.
pub fn build_runtime_modules_payload(
    config: &Config,
    flavor: BuildFlavor,
    state: &RuntimeState,
    probed: &Vec<(String, ModuleProbe)>,
) -> (r: Vec<ModuleListEntry>)
    ensures
        r@.len() == probed@.len(),
        forall|i: int|
            0 <= i < r@.len() ==> entry_matches(
                #[trigger] r@[i],
                *config,
                flavor,
                *state,
                probed@[i].0@,
                join_path(config.moduledir@, probed@[i].0@),
                probed@[i].1,
                false,
            ),
{
    let mut out: Vec<ModuleListEntry> = Vec::new();
    let mut i: usize = 0;
    while i < probed.len()
        invariant
            i <= probed@.len(),
            out@.len() == i,
            forall|j: int|
                0 <= j < i ==> entry_matches(
                    #[trigger] out@[j],
                    *config,
                    flavor,
                    *state,
                    probed@[j].0@,
                    join_path(config.moduledir@, probed@[j].0@),
                    probed@[j].1,
                    false,
                ),
        decreases probed@.len() - i,
    {
        let id = probed[i].0.as_str();
        let path = join_name(config.moduledir.as_str(), id);
        let e = module_entry(config, flavor, state, id, path, &probed[i].1, false);
        out.push(e);
        i = i + 1;
    }
    out
}

/// A change to one module that the control plane applies.
#[derive(Debug, Clone)]
pub struct ModuleApplyEntry {
    pub id: String,
    pub enabled: Option<bool>,
    pub source_path: Option<String>,
    pub rules: ModuleRules,
}

/// How many modules a change updated.
#[derive(Debug, Clone, Copy)]
pub struct ModulesApplyPayload {
    pub updated: usize,
}

/// What becomes of a module's `disable` marker.
#[derive(Debug, Clone, Copy, PartialEq, Eq, Structural)]
pub enum DisableMarker {
    /// Every `disable` entry, in any letter case, is removed, and an
    /// empty one is written.
    Create,
    /// Every `disable` entry, in any letter case, is removed.
    Remove,
    /// The marker is left as it is.
    Keep,
}

/// Where a module change applies, and what becomes of its marker.
#[derive(Debug, Clone)]
pub struct ApplyPlan {
    pub target_dir: String,
    pub marker: DisableMarker,
}

pub open spec fn invalid_id_message(id: Seq<char>) -> Seq<char> {
    "Invalid module ID: '"@ + id + "'. Must match /^[a-zA-Z][a-zA-Z0-9._-]+$/"@
}

pub open spec fn canonicalize_message(sp: Seq<char>) -> Seq<char> {
    "failed to canonicalize source_path "@ + sp
}

pub open spec fn outside_message(sp: Seq<char>, moduledir: Seq<char>) -> Seq<char> {
    "source_path '"@ + sp + "' is outside moduledir '"@ + moduledir + "'"@
}

/// The plan for a module change, or why it is refused: an invalid
/// identifier; a given source path that could not be resolved, or that
/// resolves outside the (resolved, where that worked) modules directory.
/// The module path is the given source path, else the module's directory.
pub open spec fn spec_apply_plan(
    m: ModuleApplyEntry,
    moduledir: Seq<char>,
    canonical_source: Option<Result<String, String>>,
    canonical_moduledir: Option<String>,
) -> Result<(Seq<char>, DisableMarker), Seq<char>> {
    let base = match canonical_moduledir {
        Some(c) => c@,
        None => moduledir,
    };
    let marker = match m.enabled {
        Some(false) => DisableMarker::Create,
        Some(true) => DisableMarker::Remove,
        None => DisableMarker::Keep,
    };
    if !crate::validation::spec_valid_module_id(m.id@) {
        Err(invalid_id_message(m.id@))
    } else {
        match m.source_path {
            Some(sp) => match canonical_source {
                Some(Ok(c)) => if path_starts_with(c@, base) {
                    Ok((sp@, marker))
                } else {
                    Err(outside_message(sp@, moduledir))
                },
                _ => Err(canonicalize_message(sp@)),
            },
            None => Ok((join_path(moduledir, m.id@), marker)),
        }
    }
}

fn message3(a: &str, b: &str, c: &str) -> (m: String)
    ensures
        m@ == a@ + b@ + c@,
{
    let mut v: Vec<char> = Vec::new();
    crate::text::append_str(&mut v, a);
    crate::text::append_str(&mut v, b);
    crate::text::append_str(&mut v, c);
    string_from_chars(&v)
}

/// Checks a module change and plans it (see `spec_apply_plan`).
/// `canonical_source` is the source path resolved on disk (`None` where no
/// source path is given), `canonical_moduledir` the modules directory
/// resolved, where that worked.
pub fn plan_module_apply(
    m: &ModuleApplyEntry,
    moduledir: &str,
    canonical_source: Option<Result<String, String>>,
    canonical_moduledir: Option<String>,
) -> (r: Result<ApplyPlan, String>)
    ensures
        match (r, spec_apply_plan(*m, moduledir@, canonical_source, canonical_moduledir)) {
            (Ok(p), Ok((path, marker))) => p.target_dir@ == path && p.marker == marker,
            (Err(a), Err(b)) => a@ == b,
            _ => false,
        },
{
    let marker = match m.enabled {
        Some(e) => if e {
            DisableMarker::Remove
        } else {
            DisableMarker::Create
        },
        None => DisableMarker::Keep,
    };
    if !crate::validation::is_valid_module_id(m.id.as_str()) {
        return Err(message3(
            "Invalid module ID: '",
            m.id.as_str(),
            "'. Must match /^[a-zA-Z][a-zA-Z0-9._-]+$/",
        ));
    }
    match &m.source_path {
        Some(sp) => {
            let ghost cs = canonical_source;
            match canonical_source {
                Some(Ok(c)) => {
                    let inside = match &canonical_moduledir {
                        Some(cm) => path_prefix(c.as_str(), cm.as_str()),
                        None => path_prefix(c.as_str(), moduledir),
                    };
                    if inside {
                        Ok(ApplyPlan { target_dir: sp.clone(), marker })
                    } else {
                        let mut v: Vec<char> = Vec::new();
                        crate::text::append_str(&mut v, "source_path '");
                        crate::text::append_str(&mut v, sp.as_str());
                        crate::text::append_str(&mut v, "' is outside moduledir '");
                        crate::text::append_str(&mut v, moduledir);
                        crate::text::append_str(&mut v, "'");
                        Err(string_from_chars(&v))
                    }
                },
                _ => {
                    let mut v: Vec<char> = Vec::new();
                    crate::text::append_str(&mut v, "failed to canonicalize source_path ");
                    crate::text::append_str(&mut v, sp.as_str());
                    Err(string_from_chars(&v))
                },
            }
        },
        None => Ok(ApplyPlan { target_dir: join_name(moduledir, m.id.as_str()), marker }),
    }
}

/// `after` is `before` with the rules of module `id` set to `rules`: the
/// first entry for it replaced, or a new entry added at the end; nothing
/// else changes.
pub open spec fn rules_written(before: Config, after: Config, id: Seq<char>, rules: ModuleRules) -> bool {
    &&& after == (Config { rules: after.rules, ..before })
    &&& match before.rule_index(id) {
        Some(i) => {
            &&& after.rules@.len() == before.rules@.len()
            &&& after.rules@[i].0@ == id
            &&& after.rules@[i].1 == rules
            &&& forall|j: int|
                0 <= j < before.rules@.len() && j != i ==> after.rules@[j] == before.rules@[j]
        },
        None => {
            &&& after.rules@.len() == before.rules@.len() + 1
            &&& after.rules@.last().0@ == id
            &&& after.rules@.last().1 == rules
            &&& forall|j: int| 0 <= j < before.rules@.len() ==> after.rules@[j] == before.rules@[j]
        },
    }
}

/// Sets the configured rules of module `id` (see `rules_written`).
pub fn set_module_rules(config: &mut Config, id: &str, rules: ModuleRules)
    ensures
        rules_written(*old(config), *final(config), id@, rules),
        old(config).rule_keys_unique() ==> final(config).rule_keys_unique(),
{
    let ghost before = *config;
    let key = string_from_chars(&chars_of(id));
    match config.find_rules(id) {
        Some(i) => {
            proof {
                let k = old(config).rule_index(id@);
                assert(old(config).rules@[i as int].0@ == id@);
                assert(k is Some);
                let kk = k->0;
                assert(kk == i) by {
                    if kk < i {
                        assert(old(config).rules@[kk].0@ == id@);
                    } else if kk > i {
                        assert(old(config).rules@[i as int].0@ != id@);
                    }
                }
            }
            config.rules.set(i, (key, rules));
        },
        None => {
            proof {
                assert(!exists|i: int|
                    0 <= i < old(config).rules@.len() && old(config).rules@[i].0@ == id@);
            }
            config.rules.push((key, rules));
        },
    }
    proof {
        lemma_written_keys_unique(before, *config, id@, rules);
    }
}


/// Some entry has `id` among the first `n`: then a first one has.
proof fn lemma_first_rule_exists(c: Config, id: Seq<char>, n: int)
    requires
        0 <= n <= c.rules@.len(),
        exists|i: int| 0 <= i < n && c.rules@[i].0@ == id,
    ensures
        exists|i: int|
            0 <= i < n && c.rules@[i].0@ == id && forall|j: int| 0 <= j < i ==> c.rules@[j].0@ != id,
    decreases n,
{
    if exists|i: int| 0 <= i < n - 1 && c.rules@[i].0@ == id {
        lemma_first_rule_exists(c, id, n - 1);
        let i = choose|i: int|
            0 <= i < n - 1 && c.rules@[i].0@ == id && forall|j: int| 0 <= j < i ==> c.rules@[j].0@ != id;
        assert(0 <= i < n);
    } else {
        assert(c.rules@[n - 1].0@ == id);
        assert forall|j: int| 0 <= j < n - 1 implies c.rules@[j].0@ != id by {}
    }
}

/// `rule_index` is the first entry with `id`, when there is one.
proof fn lemma_rule_index_first(c: Config, id: Seq<char>, k: int)
    requires
        0 <= k < c.rules@.len(),
        c.rules@[k].0@ == id,
        forall|j: int| 0 <= j < k ==> c.rules@[j].0@ != id,
    ensures
        c.rule_index(id) == Some(k),
{
    let i = c.rule_index(id)->0;
    assert(c.rules@[i].0@ == id && forall|j: int| 0 <= j < i ==> c.rules@[j].0@ != id);
    if i < k {
        assert(c.rules@[i].0@ != id);
    } else if i > k {
        assert(c.rules@[k].0@ != id);
    }
}

/// When `rule_index` finds an entry for `id`, it is the first one.
proof fn lemma_rule_index_some(c: Config, id: Seq<char>)
    requires
        c.rule_index(id) is Some,
    ensures
        ({
            let i = c.rule_index(id)->0;
            &&& 0 <= i < c.rules@.len()
            &&& c.rules@[i].0@ == id
            &&& forall|j: int| 0 <= j < i ==> c.rules@[j].0@ != id
        }),
{
    lemma_first_rule_exists(c, id, c.rules@.len() as int);
}

/// What is written is what is read: once the rules of module `id` are set
/// to `rules`, the rules loaded for `id` without a marker file are those
/// rules (their default mode and their path entries), and the rules loaded
/// for every other module, with or without a marker, are what they were.
/// Writing a module's rules keeps one rule entry per module: it replaces
/// the module's entry where there is one and adds one where there is none.
pub proof fn lemma_written_keys_unique(before: Config, after: Config, id: Seq<char>, rules: ModuleRules)
    requires
        rules_written(before, after, id, rules),
    ensures
        before.rule_keys_unique() ==> after.rule_keys_unique(),
{
    if before.rule_keys_unique() {
        match before.rule_index(id) {
            Some(k) => {
                lemma_rule_index_some(before, id);
                assert forall|i: int, j: int|
                    0 <= i < j < after.rules@.len() implies (#[trigger] after.rules@[i]).0@ != (
                    #[trigger] after.rules@[j]).0@ by {
                    assert(after.rules@[i].0@ == before.rules@[i].0@);
                    assert(after.rules@[j].0@ == before.rules@[j].0@);
                    assert(before.rules@[i].0@ != before.rules@[j].0@);
                }
            },
            None => {
                let n = before.rules@.len() as int;
                assert forall|i: int, j: int|
                    0 <= i < j < after.rules@.len() implies (#[trigger] after.rules@[i]).0@ != (
                    #[trigger] after.rules@[j]).0@ by {
                    assert(after.rules@[i] == before.rules@[i]);
                    if j < n {
                        assert(after.rules@[j] == before.rules@[j]);
                        assert(before.rules@[i].0@ != before.rules@[j].0@);
                    } else {
                        if before.rules@[i].0@ == id {
                            lemma_first_rule_exists(before, id, n);
                        }
                    }
                }
            },
        }
    }
}

pub proof fn lemma_rules_read_back(
    before: Config,
    after: Config,
    id: Seq<char>,
    rules: ModuleRules,
    other: Seq<char>,
    marker: Option<MountMode>,
)
    requires
        rules_written(before, after, id, rules),
        other != id,
    ensures
        spec_rules_default(&after, id, None) == rules.default_mode,
        spec_rules_entries(&after, id) == rules.entries(),
        spec_rules_default(&after, other, marker) == spec_rules_default(&before, other, marker),
        spec_rules_entries(&after, other) == spec_rules_entries(&before, other),
{
    let n = before.rules@.len() as int;
    match before.rule_index(id) {
        Some(i) => {
            lemma_rule_index_some(before, id);
            assert forall|j: int| 0 <= j < i implies after.rules@[j].0@ != id by {
                assert(after.rules@[j] == before.rules@[j]);
            }
            lemma_rule_index_first(after, id, i);
        },
        None => {
            assert forall|j: int| 0 <= j < n implies after.rules@[j].0@ != id by {
                assert(after.rules@[j] == before.rules@[j]);
                if before.rules@[j].0@ == id {
                    lemma_first_rule_exists(before, id, n);
                }
            }
            lemma_rule_index_first(after, id, n);
        },
    }
    // The entries for `other` are the same in both, at the same places.
    assert forall|j: int| 0 <= j < after.rules@.len() && after.rules@[j].0@ == other implies j < n
        && after.rules@[j] == before.rules@[j] by {
        match before.rule_index(id) {
            Some(i) => {
                if j == i {
                    assert(after.rules@[i].0@ == id);
                }
            },
            None => {
                if j == n {
                    assert(after.rules@.last().0@ == id);
                }
            },
        }
    }
    assert forall|j: int| 0 <= j < n && before.rules@[j].0@ == other implies after.rules@[j]
        == before.rules@[j] by {
        match before.rule_index(id) {
            Some(i) => {
                lemma_rule_index_some(before, id);
                if j == i {
                    assert(before.rules@[i].0@ == id);
                }
            },
            None => {},
        }
    }
    if before.rule_index(other) is Some {
        lemma_rule_index_some(before, other);
        let k = before.rule_index(other)->0;
        assert forall|j: int| 0 <= j < k implies after.rules@[j].0@ != other by {
            if after.rules@[j].0@ == other {
                assert(after.rules@[j] == before.rules@[j]);
            }
        }
        lemma_rule_index_first(after, other, k);
    } else {
        if after.rule_index(other) is Some {
            lemma_rule_index_some(after, other);
            let k = after.rule_index(other)->0;
            assert(after.rules@[k] == before.rules@[k]);
            lemma_first_rule_exists(before, other, n);
        }
    }
}

} // verus!
