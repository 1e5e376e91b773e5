//! Build flavors: which subsystems a build carries.

use vstd::prelude::*;

use crate::text::{chars_of, has_prefix, string_from_chars, slice_chars, trim_start_index};

verus! {

/// The three release flavors.
#[derive(Debug, Clone, Copy, PartialEq, Eq, Structural)]
pub enum BuildFlavor {
    Full,
    Lite,
    Nano,
}

impl BuildFlavor {
    pub open spec fn spec_enable_kasumi(self) -> bool {
        self == BuildFlavor::Full
    }

    pub open spec fn spec_enable_control_plane(self) -> bool {
        self != BuildFlavor::Nano
    }

    pub open spec fn spec_label(self) -> Seq<char> {
        match self {
            BuildFlavor::Full => "full"@,
            BuildFlavor::Lite => "lite"@,
            BuildFlavor::Nano => "nano"@,
        }
    }

    pub fn label(self) -> (s: &'static str)
        ensures
            s@ == self.spec_label(),
    {
        match self {
            BuildFlavor::Full => "full",
            BuildFlavor::Lite => "lite",
            BuildFlavor::Nano => "nano",
        }
    }

    /// Only the full flavor ships the Kasumi kernel module.
    pub fn includes_kasumi_lkm(self) -> (b: bool)
        ensures
            b == (self == BuildFlavor::Full),
    {
        self == BuildFlavor::Full
    }

    /// Every flavor but nano ships the web interface.
    pub fn includes_webui(self) -> (b: bool)
        ensures
            b == (self != BuildFlavor::Nano),
    {
        self != BuildFlavor::Nano
    }

    /// Kasumi support is compiled into the full flavor only.
    pub fn enable_kasumi(self) -> (b: bool)
        ensures
            b == self.spec_enable_kasumi(),
    {
        self == BuildFlavor::Full
    }

    /// The daemon, CLI and tmpfs storage exist in every flavor but nano.
    pub fn enable_control_plane(self) -> (b: bool)
        ensures
            b == self.spec_enable_control_plane(),
    {
        self != BuildFlavor::Nano
    }

    pub open spec fn spec_zip_stem(self, version: Seq<char>) -> Seq<char> {
        match self {
            BuildFlavor::Full => "Hybrid-Mount-"@ + version,
            BuildFlavor::Lite => "Hybrid-Mount-lite-"@ + version,
            BuildFlavor::Nano => "Hybrid-Mount-nano-"@ + version,
        }
    }

    /// The file stem of the release archive for `version`.
    pub fn zip_stem(self, version: &str) -> (s: String)
        ensures
            s@ == self.spec_zip_stem(version@),
    {
        let prefix = match self {
            BuildFlavor::Full => chars_of("Hybrid-Mount-"),
            BuildFlavor::Lite => chars_of("Hybrid-Mount-lite-"),
            BuildFlavor::Nano => chars_of("Hybrid-Mount-nano-"),
        };
        let v = chars_of(version);
        let all = concat_chars(&prefix, &v);
        string_from_chars(&all)
    }
}

/// The update manifest a lite build points to unless the metadata names one.
pub const DEFAULT_LITE_UPDATE_JSON: &'static str =
    "https://raw.githubusercontent.com/Hybrid-Mount/meta-hybrid_mount/main/update-lite.json";

/// The update manifest a nano build points to unless the metadata names one.
pub const DEFAULT_NANO_UPDATE_JSON: &'static str =
    "https://raw.githubusercontent.com/Hybrid-Mount/meta-hybrid_mount/main/update-nano.json";

/// The release names and update manifests that the module metadata
/// declares; the per-flavor ones may be absent.
#[derive(Debug, Clone)]
pub struct ReleaseMetadata {
    pub name: String,
    pub lite_name: Option<String>,
    pub nano_name: Option<String>,
    pub update: String,
    pub lite_update: Option<String>,
    pub nano_update: Option<String>,
}

/// A declared value: present and not blank.
pub open spec fn declared(v: Option<String>) -> Option<Seq<char>> {
    match v {
        Some(s) => if crate::text::trim(s@).len() > 0 {
            Some(s@)
        } else {
            None
        },
        None => None,
    }
}

fn declared_value(v: &Option<String>) -> (r: Option<String>)
    ensures
        crate::validation::opt_view(r) == declared(*v),
{
    match v {
        Some(s) => {
            let c = chars_of(s.as_str());
            let t = crate::text::trim_chars(c.as_slice());
            if t.len() > 0 {
                Some(s.clone())
            } else {
                None
            }
        },
        None => None,
    }
}

impl BuildFlavor {
    /// The module name a build of this flavor carries: the declared name
    /// for full builds; the declared flavor name, else the name followed by
    /// `" Lite"` or `" Nano"`.
    pub open spec fn spec_module_name(self, meta: ReleaseMetadata) -> Seq<char> {
        match self {
            BuildFlavor::Full => meta.name@,
            BuildFlavor::Lite => match declared(meta.lite_name) {
                Some(n) => n,
                None => meta.name@ + " Lite"@,
            },
            BuildFlavor::Nano => match declared(meta.nano_name) {
                Some(n) => n,
                None => meta.name@ + " Nano"@,
            },
        }
    }

    pub fn module_name(self, meta: &ReleaseMetadata) -> (s: String)
        ensures
            s@ == self.spec_module_name(*meta),
    {
        let (declared_name, suffix) = match self {
            BuildFlavor::Full => {
                return meta.name.clone();
            },
            BuildFlavor::Lite => (declared_value(&meta.lite_name), " Lite"),
            BuildFlavor::Nano => (declared_value(&meta.nano_name), " Nano"),
        };
        match declared_name {
            Some(n) => n,
            None => {
                let mut v = chars_of(meta.name.as_str());
                crate::text::append_str(&mut v, suffix);
                string_from_chars(&v)
            },
        }
    }

    /// The update manifest a build of this flavor points to: the declared
    /// one for full builds; the declared flavor manifest, else the default
    /// one of the flavor.
    pub open spec fn spec_update_json(self, meta: ReleaseMetadata) -> Seq<char> {
        match self {
            BuildFlavor::Full => meta.update@,
            BuildFlavor::Lite => match declared(meta.lite_update) {
                Some(u) => u,
                None => DEFAULT_LITE_UPDATE_JSON@,
            },
            BuildFlavor::Nano => match declared(meta.nano_update) {
                Some(u) => u,
                None => DEFAULT_NANO_UPDATE_JSON@,
            },
        }
    }

    pub fn update_json(self, meta: &ReleaseMetadata) -> (s: String)
        ensures
            s@ == self.spec_update_json(*meta),
    {
        let (declared_url, fallback) = match self {
            BuildFlavor::Full => {
                return meta.update.clone();
            },
            BuildFlavor::Lite => (declared_value(&meta.lite_update), DEFAULT_LITE_UPDATE_JSON),
            BuildFlavor::Nano => (declared_value(&meta.nano_update), DEFAULT_NANO_UPDATE_JSON),
        };
        match declared_url {
            Some(u) => u,
            None => fallback.to_string(),
        }
    }
}

/// `a` followed by `b`.
pub fn concat_chars(a: &[char], b: &[char]) -> (r: Vec<char>)
    ensures
        r@ == a@ + b@,
{
    let mut r = slice_chars(a, 0, a.len());
    let mut k: usize = 0;
    let ghost mid = r@;
    assert(mid =~= a@);
    while k < b.len()
        invariant
            k <= b@.len(),
            r@ == mid + b@.take(k as int),
        decreases b@.len() - k,
    {
        r.push(b[k]);
        assert(r@ =~= mid + b@.take(k + 1));
        k = k + 1;
    }
    assert(b@.take(k as int) =~= b@);
    r
}

/// The first line of `s`, its line ending included (`split_inclusive`).
pub open spec fn first_line_len(s: Seq<char>) -> int {
    let i = crate::validation::first_index(s, '\n') as int;
    if i < s.len() {
        i + 1int
    } else {
        s.len() as int
    }
}

/// `s` from its first line that is neither blank nor a `#` comment.
pub open spec fn skip_comment_lines(s: Seq<char>) -> Seq<char>
    decreases s.len(),
{
    if s.len() == 0 {
        s
    } else {
        let n = first_line_len(s);
        let t = crate::text::trim_start(s.take(n));
        if 0 < n && (t.len() == 0 || has_prefix(t, seq!['#'])) {
            skip_comment_lines(s.skip(n))
        } else {
            s
        }
    }
}

/// TOML text without a byte-order mark and without the blank and comment
/// lines that precede its first entry.
pub open spec fn spec_strip_toml_preamble(content: Seq<char>) -> Seq<char> {
    let s = if has_prefix(content, seq!['\u{feff}']) {
        content.drop_first()
    } else {
        content
    };
    skip_comment_lines(s)
}

/// Removes the licence header and other leading comments of a TOML file.
pub fn strip_toml_preamble(content: &str) -> (r: String)
    ensures
        r@ == spec_strip_toml_preamble(content@),
{
    let c = chars_of(content);
    let mut s = if c.len() > 0 && c[0] == '\u{feff}' {
        slice_chars(&c, 1, c.len())
    } else {
        slice_chars(&c, 0, c.len())
    };
    assert(s@ =~= (if has_prefix(content@, seq!['\u{feff}']) {
        content@.drop_first()
    } else {
        content@
    })) by {
        if c@.len() > 0 && c@[0] == '\u{feff}' {
            assert(content@.take(1) =~= seq!['\u{feff}']);
        } else if content@.len() > 0 {
            assert(content@.take(1)[0] != '\u{feff}');
        }
    }
    let ghost start = s@;
    let mut offset: usize = 0;
    assert(s@.skip(0) =~= s@);
    while offset < s.len()
        invariant
            offset <= s@.len(),
            s@ == start,
            skip_comment_lines(start) == spec_strip_toml_preamble(content@),
            skip_comment_lines(start) == skip_comment_lines(start.skip(offset as int)),
        decreases s@.len() - offset,
    {
        let rest = slice_chars(&s, offset, s.len());
        assert(rest@ =~= start.skip(offset as int));
        let nl = crate::validation::find_char(&rest, '\n');
        let n: usize = if nl < rest.len() {
            nl + 1
        } else {
            rest.len()
        };
        let line = slice_chars(&rest, 0, n);
        assert(n as int == first_line_len(rest@));
        assert(line@ =~= rest@.take(n as int));
        let i = trim_start_index(&line);
        let blank = i == line.len();
        let comment = i < line.len() && line[i] == '#';
        proof {
            crate::text::lemma_leading_ws_bound(line@);
            let t = crate::text::trim_start(line@);
            assert(t.len() == line@.len() - i);
            if i < line@.len() {
                assert(t[0] == line@[i as int]);
                assert(has_prefix(t, seq!['#']) == (line@[i as int] == '#')) by {
                    if line@[i as int] == '#' {
                        assert(t.take(1) =~= seq!['#']);
                    } else {
                        assert(t.take(1)[0] != '#');
                    }
                }
            }
        }
        if n > 0 && (blank || comment) {
            assert(rest@.skip(n as int) =~= start.skip(offset + n));
            assert(skip_comment_lines(rest@) == skip_comment_lines(rest@.skip(n as int)));
            offset = offset + n;
        } else {
            let r = slice_chars(&s, offset, s.len());
            assert(r@ =~= start.skip(offset as int));
            assert(skip_comment_lines(rest@) == rest@);
            return string_from_chars(&r);
        }
    }
    assert(start.skip(offset as int).len() == 0);
    let r = slice_chars(&s, offset, s.len());
    assert(r@ =~= start.skip(offset as int));
    string_from_chars(&r)
}

} // verus!
