//! What the control interface reports about Kasumi: the parsed rule
//! listing, the active modules and the protocol versions.

use vstd::prelude::*;
use crate::text::{
    chars_of, join_with, lines_of, words_of, trim, has_prefix, split_lines, split_words,
    trim_chars, starts_with_chars, views, lemma_views_push, spec_parse_i32, parse_i32,
    string_from_chars, join_chars, append_str, append_chars, signed_decimal,
    signed_decimal_chars,
};
use crate::order::{string_views, strictly_sorted, sorted_unique};
use crate::validation::{opt_view, first_index, lemma_first_index, find_char};
use crate::defs::{trailing_count, MODULES_DIR};
use crate::kasumi::{KasumiStatus, KasumiFeatureBits, feature_names, feature_table, feature_set,
    entry_name};
use crate::runtime_state::RuntimeState;
use crate::config::Config;

verus! {

/// What `str::to_uppercase` makes of a text: its Unicode upper case.
pub uninterp spec fn uppercase(s: Seq<char>) -> Seq<char>;

pub open spec fn is_ascii_text(s: Seq<char>) -> bool {
    forall|i: int| 0 <= i < s.len() ==> (#[trigger] s[i] as int) < 128
}

/// ASCII letters turned to upper case, everything else kept.
pub open spec fn ascii_upper(s: Seq<char>) -> Seq<char> {
    s.map_values(
        |c: char|
            if 'a' <= c && c <= 'z' {
                ((c as int) - 32) as char
            } else {
                c
            },
    )
}

/// `str::to_uppercase`; on ASCII text it changes only the letters `a`-`z`.
#[verifier::external_body]
fn to_uppercase(s: &str) -> (r: String)
    ensures
        r@ == uppercase(s@),
        is_ascii_text(s@) ==> r@ == ascii_upper(s@),
{
    s.to_uppercase()
}

/// One rule of a Kasumi rule listing.
#[derive(Debug, Clone)]
pub struct KasumiRuleEntry {
    pub rule_type: String,
    pub target: Option<String>,
    pub source: Option<String>,
    pub path: Option<String>,
    pub args: Option<String>,
    pub file_type: Option<i32>,
}

/// The `i`-th word, if there is one.
pub open spec fn word(words: Seq<Seq<char>>, i: int) -> Option<Seq<char>> {
    if 0 <= i < words.len() {
        Some(words[i])
    } else {
        None
    }
}

/// The entry a line of words gives, its first word upper-cased as `kind`:
/// `ADD target source type`, `MERGE target source`, `HIDE path`,
/// `INJECT path`, or any other kind with its remaining words as arguments.
pub open spec fn entry_matches(e: KasumiRuleEntry, words: Seq<Seq<char>>, kind: Seq<char>) -> bool {
    &&& e.rule_type@ == kind
    &&& if kind == "ADD"@ {
        &&& opt_view(e.target) == word(words, 1)
        &&& opt_view(e.source) == word(words, 2)
        &&& e.path is None && e.args is None
        &&& e.file_type == (if words.len() > 3 {
            spec_parse_i32(words[3])
        } else {
            None
        })
    } else if kind == "MERGE"@ {
        &&& opt_view(e.target) == word(words, 1)
        &&& opt_view(e.source) == word(words, 2)
        &&& e.path is None && e.args is None && e.file_type is None
    } else if kind == "HIDE"@ || kind == "INJECT"@ {
        &&& opt_view(e.path) == word(words, 1)
        &&& e.target is None && e.source is None && e.args is None && e.file_type is None
    } else {
        let a = join_with(words.skip(1), " "@);
        &&& opt_view(e.args) == (if a.len() > 0 {
            Some(a)
        } else {
            None
        })
        &&& e.target is None && e.source is None && e.path is None && e.file_type is None
    }
}

fn word_at(words: &Vec<Vec<char>>, i: usize) -> (r: Option<String>)
    ensures
        opt_view(r) == word(views(words@), i as int),
{
    if i < words.len() {
        assert(views(words@)[i as int] == words@[i as int]@);
        Some(string_from_chars(&words[i]))
    } else {
        None
    }
}

/// The entry for a listing line of `words`, whose first word upper-cased
/// is `kind`.
pub fn rule_entry_from_words(kind: String, words: &Vec<Vec<char>>) -> (e: KasumiRuleEntry)
    requires
        words@.len() > 0,
    ensures
        entry_matches(e, views(words@), kind@),
{
    let k = chars_of(kind.as_str());
    let add = chars_of("ADD");
    let merge = chars_of("MERGE");
    let hide = chars_of("HIDE");
    let inject = chars_of("INJECT");
    if crate::text::chars_eq(&k, &add) {
        let file_type = if words.len() > 3 {
            assert(views(words@)[3] == words@[3]@);
            parse_i32(&words[3])
        } else {
            None
        };
        KasumiRuleEntry {
            rule_type: kind,
            target: word_at(words, 1),
            source: word_at(words, 2),
            path: None,
            args: None,
            file_type,
        }
    } else if crate::text::chars_eq(&k, &merge) {
        KasumiRuleEntry {
            rule_type: kind,
            target: word_at(words, 1),
            source: word_at(words, 2),
            path: None,
            args: None,
            file_type: None,
        }
    } else if crate::text::chars_eq(&k, &hide) || crate::text::chars_eq(&k, &inject) {
        KasumiRuleEntry {
            rule_type: kind,
            target: None,
            source: None,
            path: word_at(words, 1),
            args: None,
            file_type: None,
        }
    } else {
        let mut rest: Vec<Vec<char>> = Vec::new();
        let mut i: usize = 1;
        while i < words.len()
            invariant
                1 <= i <= words@.len(),
                views(rest@) == views(words@).subrange(1, i as int),
            decreases words@.len() - i,
        {
            let c = crate::path::copy_chars(&words[i]);
            proof {
                lemma_views_push(rest@, c);
            }
            rest.push(c);
            assert(views(rest@) =~= views(words@).subrange(1, i + 1));
            i = i + 1;
        }
        assert(views(rest@) =~= views(words@).skip(1));
        let sep = chars_of(" ");
        let joined = join_chars(&rest, &sep);
        let args = if joined.len() > 0 {
            Some(string_from_chars(&joined))
        } else {
            None
        };
        KasumiRuleEntry { rule_type: kind, target: None, source: None, path: None, args, file_type: None }
    }
}

/// A listing line that describes a rule (after trimming): not empty, not
/// one of the header lines, with at least one word.
pub open spec fn is_rule_line(t: Seq<char>) -> bool {
    &&& t.len() > 0
    &&& !has_prefix(t, "Kasumi Protocol:"@)
    &&& !has_prefix(t, "Kasumi Enabled:"@)
    &&& words_of(t).len() > 0
}

pub open spec fn rule_line_filter() -> spec_fn(Seq<char>) -> bool {
    |t: Seq<char>| is_rule_line(t)
}

/// The trimmed lines of a listing that describe rules, in order.
pub open spec fn rule_lines(lines: Seq<Seq<char>>) -> Seq<Seq<char>> {
    lines.map_values(|l: Seq<char>| trim(l)).filter(rule_line_filter())
}

/// The rules of a Kasumi rule listing, one per rule line, in order.
pub fn parse_kasumi_rule_listing(listing: &str) -> (rules: Vec<KasumiRuleEntry>)
    ensures
        rules@.len() == rule_lines(lines_of(listing@)).len(),
        forall|i: int|
            0 <= i < rules@.len() ==> entry_matches(
                #[trigger] rules@[i],
                words_of(rule_lines(lines_of(listing@))[i]),
                uppercase(words_of(rule_lines(lines_of(listing@))[i])[0]),
            ),
{
    let s = chars_of(listing);
    let lines = split_lines(&s);
    let ghost all = views(lines@);
    let ghost keep = rule_line_filter();
    let p1 = chars_of("Kasumi Protocol:");
    let p2 = chars_of("Kasumi Enabled:");
    let mut rules: Vec<KasumiRuleEntry> = Vec::new();
    let mut i: usize = 0;
    assert(rule_lines(all.take(0)) =~= Seq::<Seq<char>>::empty()) by {
        assert(all.take(0).map_values(|l: Seq<char>| trim(l)) =~= Seq::<Seq<char>>::empty());
        reveal(Seq::filter);
    }
    while i < lines.len()
        invariant
            i <= lines@.len(),
            all == views(lines@),
            all == lines_of(listing@),
            keep == rule_line_filter(),
            p1@ == "Kasumi Protocol:"@,
            p2@ == "Kasumi Enabled:"@,
            rules@.len() == rule_lines(all.take(i as int)).len(),
            forall|k: int|
                0 <= k < rules@.len() ==> entry_matches(
                    #[trigger] rules@[k],
                    words_of(rule_lines(all.take(i as int))[k]),
                    uppercase(words_of(rule_lines(all.take(i as int))[k])[0]),
                ),
        decreases lines@.len() - i,
    {
        let ghost pre = all.take(i as int);
        let ghost line = all[i as int];
        assert(all.take(i + 1) =~= pre.push(line));
        assert(all.take(i + 1).map_values(|l: Seq<char>| trim(l)) =~= pre.map_values(
            |l: Seq<char>| trim(l),
        ).push(trim(line)));
        proof {
            pre.map_values(|l: Seq<char>| trim(l)).lemma_filter_push(trim(line), keep);
        }
        assert(lines@[i as int]@ == line);
        let t = trim_chars(&lines[i]);
        let words = split_words(&t);
        let is_rule = t.len() > 0 && !starts_with_chars(&t, &p1) && !starts_with_chars(&t, &p2)
            && words.len() > 0;
        assert(is_rule == is_rule_line(trim(line)));
        if is_rule {
            assert(views(words@)[0] == words@[0]@);
            let first = string_from_chars(&words[0]);
            let kind = to_uppercase(first.as_str());
            let e = rule_entry_from_words(kind, &words);
            let ghost before = rules@;
            rules.push(e);
            assert forall|k: int|
                0 <= k < rules@.len() implies entry_matches(
                #[trigger] rules@[k],
                words_of(rule_lines(all.take(i + 1))[k]),
                uppercase(words_of(rule_lines(all.take(i + 1))[k])[0]),
            ) by {
                if k < before.len() {
                    assert(rules@[k] == before[k]);
                    assert(rule_lines(all.take(i + 1))[k] == rule_lines(pre)[k]);
                } else {
                    assert(rule_lines(all.take(i + 1))[k] == trim(line));
                }
            }
        }
        i = i + 1;
    }
    assert(all.take(i as int) =~= all);
    rules
}

/// `s` without its trailing `'/'` characters.
pub open spec fn trim_end_slashes(s: Seq<char>) -> Seq<char> {
    s.take(s.len() - trailing_count(s, '/'))
}

/// The first `'/'`-separated segment of `rest`, unless it is empty.
pub open spec fn first_segment(rest: Seq<char>) -> Option<Seq<char>> {
    let seg = rest.take(first_index(rest, '/') as int);
    if seg.len() > 0 {
        Some(seg)
    } else {
        None
    }
}

/// The module a rule source belongs to: the directory right below the
/// modules directory or below the mirror directory.
pub open spec fn spec_module_of_source(source: Seq<char>, mirror_path: Seq<char>) -> Option<
    Seq<char>,
> {
    let root = trim_end_slashes(MODULES_DIR@).push('/');
    let mirror = trim_end_slashes(mirror_path).push('/');
    if has_prefix(source, root) {
        first_segment(source.skip(root.len() as int))
    } else if has_prefix(source, mirror) {
        first_segment(source.skip(mirror.len() as int))
    } else {
        None
    }
}

fn trim_end_slashes_chars(s: &[char]) -> (r: Vec<char>)
    ensures
        r@ == trim_end_slashes(s@),
{
    let mut n = s.len();
    assert(s@.take(n as int) =~= s@);
    while n > 0 && s[n - 1] == '/'
        invariant
            n <= s@.len(),
            trailing_count(s@, '/') == (s@.len() - n) + trailing_count(s@.take(n as int), '/'),
        decreases n,
    {
        assert(s@.take(n as int).drop_last() =~= s@.take(n - 1));
        n = n - 1;
    }
    if n > 0 {
        assert(s@.take(n as int).last() != '/');
    }
    crate::text::slice_chars(s, 0, n)
}

fn segment_after(s: &[char], from: usize) -> (r: Option<String>)
    requires
        from <= s@.len(),
    ensures
        opt_view(r) == first_segment(s@.skip(from as int)),
{
    let rest = crate::text::slice_chars(s, from, s.len());
    assert(rest@ =~= s@.skip(from as int));
    let k = find_char(&rest, '/');
    proof {
        lemma_first_index(rest@, '/');
    }
    if k == 0 {
        return None;
    }
    let seg = crate::text::slice_chars(&rest, 0, k);
    assert(seg@ =~= rest@.take(k as int));
    Some(string_from_chars(&seg))
}

/// The module a rule source belongs to (see `spec_module_of_source`).
pub fn extract_module_id_from_source(source: &str, mirror_path: &str) -> (r: Option<String>)
    ensures
        opt_view(r) == spec_module_of_source(source@, mirror_path@),
{
    let s = chars_of(source);
    let mut root = trim_end_slashes_chars(&chars_of(MODULES_DIR));
    root.push('/');
    if starts_with_chars(&s, &root) {
        return segment_after(&s, root.len());
    }
    let mut mirror = trim_end_slashes_chars(&chars_of(mirror_path));
    mirror.push('/');
    if starts_with_chars(&s, &mirror) {
        return segment_after(&s, mirror.len());
    }
    None
}

/// The modules that the rules' sources belong to.
pub open spec fn source_module(e: KasumiRuleEntry, mirror_path: Seq<char>) -> Option<Seq<char>> {
    match e.source {
        Some(src) => spec_module_of_source(src@, mirror_path),
        None => None,
    }
}

pub open spec fn rule_module(rules: Seq<KasumiRuleEntry>, mirror_path: Seq<char>, id: Seq<char>) -> bool {
    exists|i: int| 0 <= i < rules.len() && source_module(#[trigger] rules[i], mirror_path) == Some(id)
}

/// The modules that the rules' sources belong to, sorted, each once.
pub fn extract_active_module_ids(rules: &Vec<KasumiRuleEntry>, mirror_path: &str) -> (r: Vec<
    String,
>)
    ensures
        strictly_sorted(string_views(r@)),
        forall|id: Seq<char>| string_views(r@).contains(id) <==> rule_module(rules@, mirror_path@, id),
{
    let mut ids: Vec<String> = Vec::new();
    let mut i: usize = 0;
    while i < rules.len()
        invariant
            i <= rules@.len(),
            forall|id: Seq<char>|
                string_views(ids@).contains(id) <==> rule_module(rules@.take(i as int), mirror_path@, id),
        decreases rules@.len() - i,
    {
        let ghost before = ids@;
        assert(string_views(before).len() == before.len());
        match &rules[i].source {
            Some(src) => {
                match extract_module_id_from_source(src.as_str(), mirror_path) {
                    Some(id) => {
                        ids.push(id);
                    },
                    None => {},
                }
            },
            None => {},
        }
        assert forall|id: Seq<char>|
            string_views(ids@).contains(id) <==> rule_module(rules@.take(i + 1), mirror_path@, id) by {
            let t = rules@.take(i + 1);
            if string_views(ids@).contains(id) {
                let k = choose|k: int| 0 <= k < string_views(ids@).len() && string_views(ids@)[k] == id;
                if k < before.len() {
                    assert(string_views(before)[k] == id);
                    assert(string_views(before).contains(id));
                    let j = choose|j: int|
                        0 <= j < i && source_module(rules@.take(i as int)[j], mirror_path@) == Some(id);
                    assert(t[j] == rules@.take(i as int)[j]);
                    assert(source_module(t[j], mirror_path@) == Some(id));
                } else {
                    assert(t[i as int] == rules@[i as int]);
                    assert(source_module(t[i as int], mirror_path@) == Some(id));
                }
            }
            if rule_module(t, mirror_path@, id) {
                let j = choose|j: int| 0 <= j < t.len() && source_module(t[j], mirror_path@) == Some(id);
                if j < i {
                    assert(rules@.take(i as int)[j] == t[j]);
                    assert(source_module(rules@.take(i as int)[j], mirror_path@) == Some(id));
                    assert(rule_module(rules@.take(i as int), mirror_path@, id));
                    assert(string_views(before).contains(id));
                    let k = choose|k: int| 0 <= k < string_views(before).len() && string_views(before)[k] == id;
                    assert(string_views(ids@)[k] == id);
                } else {
                    assert(string_views(ids@)[before.len() as int] == id);
                }
            }
        }
        i = i + 1;
    }
    assert(rules@.take(i as int) =~= rules@);
    let r = sorted_unique(ids);
    assert forall|id: Seq<char>| string_views(r@).contains(id) <==> string_views(ids@).contains(id) by {
        assert(string_views(r@).to_set().contains(id) == string_views(r@).contains(id));
        assert(string_views(ids@).to_set().contains(id) == string_views(ids@).contains(id));
    }
    r
}


/// The features the kernel module reports.
#[derive(Debug, Clone)]
pub struct FeatureInfo {
    pub bitmask: i32,
    pub names: Vec<String>,
}

/// The features of the bits `bits` (none when they could not be read).
pub fn build_features_payload(bits: Option<i32>, features: &KasumiFeatureBits) -> (p: FeatureInfo)
    ensures
        p.bitmask == (match bits {
            Some(b) => b,
            None => 0i32,
        }),
        string_views(p.names@) == feature_table(*features).filter(feature_set(p.bitmask)).map_values(
            |e: (i32, Seq<char>)| entry_name(e),
        ),
{
    let b = match bits {
        Some(b) => b,
        None => 0,
    };
    FeatureInfo { bitmask: b, names: feature_names(b, features) }
}

/// The protocol versions and active modules of Kasumi.
#[derive(Debug, Clone)]
pub struct KasumiVersionPayload {
    pub protocol_version: i32,
    pub kernel_version: i32,
    pub kasumi_available: bool,
    pub protocol_mismatch: bool,
    pub mismatch_message: Option<String>,
    pub active_modules: Vec<String>,
    pub mount_base: String,
    pub mirror_path: String,
}

pub open spec fn version_or_zero(v: Option<i32>) -> i32 {
    match v {
        Some(x) => x,
        None => 0,
    }
}

/// Why the kernel module and this library do not match, if they do not.
pub open spec fn spec_mismatch_message(status: KasumiStatus, kernel: Option<i32>, api: i32) -> Option<
    Seq<char>,
> {
    match status {
        KasumiStatus::KernelNotSupported => Some(
            "kernel protocol "@ + signed_decimal(version_or_zero(kernel) as int)
                + " is not compatible with userspace api"@ + signed_decimal(api as int),
        ),
        KasumiStatus::ModuleTooOld => Some(
            "kernel protocol "@ + signed_decimal(version_or_zero(kernel) as int)
                + " is newer than userspace api"@ + signed_decimal(api as int),
        ),
        KasumiStatus::Available => match kernel {
            Some(v) => if v != api {
                Some(
                    "protocol mismatch: userspace api"@ + signed_decimal(api as int)
                        + ", kernel api"@ + signed_decimal(v as int),
                )
            } else {
                None
            },
            None => None,
        },
        KasumiStatus::NotPresent => None,
    }
}

pub fn mismatch_message(status: KasumiStatus, kernel: Option<i32>, api: i32) -> (r: Option<String>)
    ensures
        opt_view(r) == spec_mismatch_message(status, kernel, api),
{
    let k = match kernel {
        Some(v) => v,
        None => 0,
    };
    let mut v: Vec<char> = Vec::new();
    match status {
        KasumiStatus::KernelNotSupported => {
            append_str(&mut v, "kernel protocol ");
            append_chars(&mut v, &signed_decimal_chars(k));
            append_str(&mut v, " is not compatible with userspace api");
            append_chars(&mut v, &signed_decimal_chars(api));
            Some(string_from_chars(&v))
        },
        KasumiStatus::ModuleTooOld => {
            append_str(&mut v, "kernel protocol ");
            append_chars(&mut v, &signed_decimal_chars(k));
            append_str(&mut v, " is newer than userspace api");
            append_chars(&mut v, &signed_decimal_chars(api));
            Some(string_from_chars(&v))
        },
        KasumiStatus::Available => match kernel {
            Some(kv) => if kv != api {
                append_str(&mut v, "protocol mismatch: userspace api");
                append_chars(&mut v, &signed_decimal_chars(api));
                append_str(&mut v, ", kernel api");
                append_chars(&mut v, &signed_decimal_chars(kv));
                Some(string_from_chars(&v))
            } else {
                None
            },
            None => None,
        },
        KasumiStatus::NotPresent => None,
    }
}

/// `rules` are the entries of the rule listing `listing`.
pub open spec fn parses_to(listing: Seq<char>, rules: Seq<KasumiRuleEntry>) -> bool {
    &&& rules.len() == rule_lines(lines_of(listing)).len()
    &&& forall|i: int|
        0 <= i < rules.len() ==> entry_matches(
            #[trigger] rules[i],
            words_of(rule_lines(lines_of(listing))[i]),
            uppercase(words_of(rule_lines(lines_of(listing))[i])[0]),
        )
}

/// The version report. When Kasumi is disabled nothing is asked of the
/// kernel: the report holds this library's protocol and nothing active.
/// Otherwise `status`, `kernel` (the version the kernel module answered)
/// and `rule_listing` (its rule listing, empty when it could not be read)
/// decide; the active modules are those the state recorded, or else those
/// the rules come from.
pub fn build_kasumi_version_payload(
    config: &Config,
    state: &RuntimeState,
    api: i32,
    status: KasumiStatus,
    kernel: Option<i32>,
    rule_listing: &str,
) -> (p: KasumiVersionPayload)
    ensures
        p.protocol_version == api,
        p.mount_base@ == state.mount_point@,
        p.mirror_path@ == config.kasumi.mirror_path@,
        !config.kasumi.enabled ==> p.kernel_version == 0 && !p.kasumi_available
            && !p.protocol_mismatch && p.mismatch_message is None && p.active_modules@.len() == 0,
        config.kasumi.enabled ==> {
            &&& p.kernel_version == version_or_zero(kernel)
            &&& p.kasumi_available == (status == KasumiStatus::Available)
            &&& p.protocol_mismatch == (kernel matches Some(v) && v != api)
            &&& opt_view(p.mismatch_message) == spec_mismatch_message(status, kernel, api)
            &&& strictly_sorted(string_views(p.active_modules@))
            &&& state.kasumi_modules@.len() > 0 ==> string_views(p.active_modules@).to_set()
                == string_views(state.kasumi_modules@).to_set()
            &&& state.kasumi_modules@.len() == 0 ==> (exists|rules: Seq<KasumiRuleEntry>|
                #[trigger] parses_to(rule_listing@, rules) && (forall|id: Seq<char>|
                    string_views(p.active_modules@).contains(id) <==> rule_module(
                        rules,
                        config.kasumi.mirror_path@,
                        id,
                    )))
        },
{
    if !config.kasumi.enabled {
        return KasumiVersionPayload {
            protocol_version: api,
            kernel_version: 0,
            kasumi_available: false,
            protocol_mismatch: false,
            mismatch_message: None,
            active_modules: Vec::new(),
            mount_base: state.mount_point.clone(),
            mirror_path: config.kasumi.mirror_path.clone(),
        };
    }
    let parsed = parse_kasumi_rule_listing(rule_listing);
    assert(parses_to(rule_listing@, parsed@));
    let active_modules = if state.kasumi_modules.len() > 0 {
        sorted_unique(crate::order::copy_strings(&state.kasumi_modules))
    } else {
        extract_active_module_ids(&parsed, config.kasumi.mirror_path.as_str())
    };
    let mismatch = match kernel {
        Some(v) => v != api,
        None => false,
    };
    KasumiVersionPayload {
        protocol_version: api,
        kernel_version: match kernel {
            Some(v) => v,
            None => 0,
        },
        kasumi_available: status == KasumiStatus::Available,
        protocol_mismatch: mismatch,
        mismatch_message: mismatch_message(status, kernel, api),
        active_modules,
        mount_base: state.mount_point.clone(),
        mirror_path: config.kasumi.mirror_path.clone(),
    }
}

/// What the kernel module loader reports.
#[derive(Debug, Clone)]
pub struct LkmStatus {
    pub loaded: bool,
    pub module_name: Option<String>,
    pub autoload: bool,
    pub kmi_override: String,
    pub current_kmi: String,
    pub search_dir: String,
    pub module_file: Option<String>,
}

/// The kernel module status that the control plane serves, with the last
/// loader error.
#[derive(Debug, Clone)]
pub struct LkmPayload {
    pub loaded: bool,
    pub module_name: Option<String>,
    pub autoload: bool,
    pub kmi_override: String,
    pub current_kmi: String,
    pub search_dir: String,
    pub module_file: Option<String>,
    pub last_error: Option<String>,
}

/// The payload of a loader status and its last error, field for field.
pub fn build_lkm_payload(status: LkmStatus, last_error: Option<String>) -> (p: LkmPayload)
    ensures
        p.loaded == status.loaded,
        p.module_name == status.module_name,
        p.autoload == status.autoload,
        p.kmi_override == status.kmi_override,
        p.current_kmi == status.current_kmi,
        p.search_dir == status.search_dir,
        p.module_file == status.module_file,
        p.last_error == last_error,
{
    LkmPayload {
        loaded: status.loaded,
        module_name: status.module_name,
        autoload: status.autoload,
        kmi_override: status.kmi_override,
        current_kmi: status.current_kmi,
        search_dir: status.search_dir,
        module_file: status.module_file,
        last_error,
    }
}

} // verus!
