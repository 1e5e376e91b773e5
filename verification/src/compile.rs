//! Compilation of Kasumi rules from the mirrored trees of the modules that
//! Kasumi serves: which entries become merge, add or hide rules.

use vstd::prelude::*;

use crate::defs::{join_name, join_path};
use crate::domain::{ModuleRules, MountMode};
use crate::inventory::{ci_eq, eq_ignore_ascii_case, Module};
use crate::order::{contains_str, string_views};
use crate::config::Config;
use crate::plan::{KasumiAddRule, KasumiMergeRule, MountPlan};
use crate::prepare::{file_name, spec_file_name};
use crate::text::{chars_of, string_from_chars};

verus! {

/// The file-type bits of `st_mode` that `libc` defines for Linux.
pub struct ModeBits {
    pub s_ifmt: u32,
    pub s_ifreg: u32,
    pub s_iflnk: u32,
    pub s_ifdir: u32,
    pub s_ifblk: u32,
    pub s_ifchr: u32,
    pub s_ififo: u32,
    pub s_ifsock: u32,
}

/// The directory-entry type codes that `libc` defines.
pub struct DirentCodes {
    pub dt_unknown: i32,
    pub dt_reg: i32,
    pub dt_lnk: i32,
    pub dt_dir: i32,
    pub dt_blk: i32,
    pub dt_chr: i32,
    pub dt_fifo: i32,
    pub dt_sock: i32,
}

/// The constants `S_IFMT`, `S_IFREG`, `S_IFLNK`, `S_IFDIR`, `S_IFBLK`,
/// `S_IFCHR`, `S_IFIFO` and `S_IFSOCK` of `libc`, with the values of its
/// Linux definitions.
#[verifier::external_body]
fn mode_bits() -> (c: ModeBits)
    ensures
        c.s_ifmt == 0o170000,
        c.s_ifreg == 0o100000,
        c.s_iflnk == 0o120000,
        c.s_ifdir == 0o040000,
        c.s_ifblk == 0o060000,
        c.s_ifchr == 0o020000,
        c.s_ififo == 0o010000,
        c.s_ifsock == 0o140000,
{
    ModeBits {
        s_ifmt: libc::S_IFMT as u32,
        s_ifreg: libc::S_IFREG as u32,
        s_iflnk: libc::S_IFLNK as u32,
        s_ifdir: libc::S_IFDIR as u32,
        s_ifblk: libc::S_IFBLK as u32,
        s_ifchr: libc::S_IFCHR as u32,
        s_ififo: libc::S_IFIFO as u32,
        s_ifsock: libc::S_IFSOCK as u32,
    }
}

/// The constants `DT_UNKNOWN`, `DT_REG`, `DT_LNK`, `DT_DIR`, `DT_BLK`,
/// `DT_CHR`, `DT_FIFO` and `DT_SOCK` of `libc`, with the values it defines.
#[verifier::external_body]
fn dirent_codes() -> (c: DirentCodes)
    ensures
        c.dt_unknown == 0,
        c.dt_reg == 8,
        c.dt_lnk == 10,
        c.dt_dir == 4,
        c.dt_blk == 6,
        c.dt_chr == 2,
        c.dt_fifo == 1,
        c.dt_sock == 12,
{
    DirentCodes {
        dt_unknown: libc::DT_UNKNOWN as i32,
        dt_reg: libc::DT_REG as i32,
        dt_lnk: libc::DT_LNK as i32,
        dt_dir: libc::DT_DIR as i32,
        dt_blk: libc::DT_BLK as i32,
        dt_chr: libc::DT_CHR as i32,
        dt_fifo: libc::DT_FIFO as i32,
        dt_sock: libc::DT_SOCK as i32,
    }
}

/// What `symlink_metadata` reports of an entry: its mode and, for a
/// device, its device number.
#[derive(Debug, Clone, Copy)]
pub struct EntryMeta {
    pub mode: u32,
    pub rdev: u64,
}

/// The directory-entry type that a file mode stands for.
pub open spec fn spec_dtype(mode: u32) -> i32 {
    let t = mode & 0o170000u32;
    if t == 0o100000u32 {
        8
    } else if t == 0o120000u32 {
        10
    } else if t == 0o040000u32 {
        4
    } else if t == 0o060000u32 {
        6
    } else if t == 0o020000u32 {
        2
    } else if t == 0o010000u32 {
        1
    } else if t == 0o140000u32 {
        12
    } else {
        0
    }
}

/// A character device with device number 0 is a whiteout: it only hides
/// the path (type unknown, `true`); anything else is added with its type.
pub open spec fn spec_build_dtype(meta: EntryMeta) -> (i32, bool) {
    if meta.mode & 0o170000u32 == 0o020000u32 && meta.rdev == 0 {
        (0, true)
    } else {
        (spec_dtype(meta.mode), false)
    }
}

/// The Kasumi file type of an entry, and whether it only hides its path.
pub fn build_dtype(meta: EntryMeta) -> (r: (i32, bool))
    ensures
        r == spec_build_dtype(meta),
{
    let c = mode_bits();
    let d = dirent_codes();
    let t = meta.mode & c.s_ifmt;
    if t == c.s_ifchr && meta.rdev == 0 {
        return (d.dt_unknown, true);
    }
    let r = if t == c.s_ifreg {
        d.dt_reg
    } else if t == c.s_iflnk {
        d.dt_lnk
    } else if t == c.s_ifdir {
        d.dt_dir
    } else if t == c.s_ifblk {
        d.dt_blk
    } else if t == c.s_ifchr {
        d.dt_chr
    } else if t == c.s_ififo {
        d.dt_fifo
    } else if t == c.s_ifsock {
        d.dt_sock
    } else {
        d.dt_unknown
    };
    (r, false)
}

/// How the walk of a mirrored tree (links not followed) saw an entry.
#[derive(Debug, Clone, Copy, PartialEq, Eq, Structural)]
pub enum MirrorKind {
    Directory,
    Symlink,
    Other,
}

/// One entry below a mirrored partition directory, in walk order (each
/// directory before what it holds): its path relative to the module's
/// mirror root (`"system/etc/hosts"`), its full path, its kind, its
/// metadata (`None` where it could not be read), the path it stands for on
/// the live system (see `mirror_target`) and whether that path is a
/// directory.
#[derive(Debug, Clone)]
pub struct MirrorEntry {
    pub relative: String,
    pub source: String,
    pub kind: MirrorKind,
    pub meta: Option<EntryMeta>,
    pub target: String,
    pub target_is_dir: bool,
}

/// One managed partition of a module's mirror: its name, whether its root
/// is a directory, where that root leads once resolved as a link, and the
/// walk below it.
#[derive(Debug, Clone)]
pub struct PartitionMirror {
    pub name: String,
    pub root_is_dir: bool,
    pub resolved_root: String,
    pub entries: Vec<MirrorEntry>,
}

/// A module together with what its Kasumi mirror holds: whether the mirror
/// root exists, and its managed partitions in name order.
#[derive(Debug, Clone)]
pub struct ModuleMirror {
    pub module: Module,
    pub root_exists: bool,
    pub partitions: Vec<PartitionMirror>,
}

/// The rules compiled for Kasumi.
#[derive(Debug, Clone)]
pub struct CompiledRules {
    pub add_rules: Vec<KasumiAddRule>,
    pub merge_rules: Vec<KasumiMergeRule>,
    pub hide_rules: Vec<String>,
}

/// The compiled rules as plain values.
pub struct CompiledView {
    pub adds: Seq<(Seq<char>, Seq<char>, i32)>,
    pub merges: Seq<(Seq<char>, Seq<char>)>,
    pub hides: Seq<Seq<char>>,
}

pub open spec fn add_views(v: Seq<KasumiAddRule>) -> Seq<(Seq<char>, Seq<char>, i32)> {
    v.map_values(|r: KasumiAddRule| (r.target@, r.source@, r.file_type))
}

pub open spec fn merge_views(v: Seq<KasumiMergeRule>) -> Seq<(Seq<char>, Seq<char>)> {
    v.map_values(|r: KasumiMergeRule| (r.target@, r.source@))
}

impl CompiledRules {
    pub open spec fn view_of(&self) -> CompiledView {
        CompiledView {
            adds: add_views(self.add_rules@),
            merges: merge_views(self.merge_rules@),
            hides: string_views(self.hide_rules@),
        }
    }
}

/// Compiled rules so far, and the error that stopped compilation, if any.
pub struct CompileState {
    pub out: CompiledView,
    pub error: Option<Seq<char>>,
}

pub open spec fn empty_view() -> CompiledView {
    CompiledView { adds: seq![], merges: seq![], hides: seq![] }
}


/// Whether the entry's file name is the replace marker, in any letter case.
pub open spec fn is_replace_marker(relative: Seq<char>) -> bool {
    match spec_file_name(relative) {
        Some(n) => ci_eq(n, ".replace"@),
        None => false,
    }
}

/// Whether `path` lies below the directory `dir`.
pub open spec fn below(path: Seq<char>, dir: Seq<char>) -> bool {
    crate::text::has_prefix(path, dir.push('/'))
}

pub open spec fn metadata_error(source: Seq<char>) -> Seq<char> {
    "failed to read metadata for kasumi source "@ + source
}

/// One entry of a walk: skipped below a merged directory, left alone unless
/// its module asks for Kasumi there and it is no replace marker; a directory
/// that exists on the live system becomes a merge rule (and its contents are
/// skipped); a link to a live directory is left alone; anything else becomes
/// a hide rule (a whiteout) or an add rule with its type. The second result
/// is the merged directory whose contents are skipped.
pub open spec fn entry_step(
    rules: ModuleRules,
    st: CompileState,
    skip: Option<Seq<char>>,
    e: MirrorEntry,
) -> (CompileState, Option<Seq<char>>) {
    let rel = e.relative@;
    let target = e.target@;
    if skip matches Some(d) && below(rel, d) {
        (st, skip)
    } else if rules.spec_mode(rel) != MountMode::Kasumi || is_replace_marker(rel) {
        (st, skip)
    } else if e.kind == MirrorKind::Directory {
        if e.target_is_dir {
            (
                CompileState {
                    out: CompiledView {
                        merges: st.out.merges.push((target, e.source@)),
                        ..st.out
                    },
                    ..st
                },
                Some(rel),
            )
        } else {
            (st, skip)
        }
    } else if e.kind == MirrorKind::Symlink && e.target_is_dir {
        (st, skip)
    } else {
        match e.meta {
            None => (CompileState { error: Some(metadata_error(e.source@)), ..st }, skip),
            Some(m) => {
                let (t, hide_only) = spec_build_dtype(m);
                if hide_only {
                    (
                        CompileState {
                            out: CompiledView { hides: st.out.hides.push(target), ..st.out },
                            ..st
                        },
                        skip,
                    )
                } else {
                    (
                        CompileState {
                            out: CompiledView {
                                adds: st.out.adds.push((target, e.source@, t)),
                                ..st.out
                            },
                            ..st
                        },
                        skip,
                    )
                }
            },
        }
    }
}

/// The walk from the front, stopping at the first error.
pub open spec fn walk_from(
    rules: ModuleRules,
    st: CompileState,
    skip: Option<Seq<char>>,
    es: Seq<MirrorEntry>,
) -> CompileState
    decreases es.len(),
{
    if es.len() == 0 || st.error is Some {
        st
    } else {
        let (st2, skip2) = entry_step(rules, st, skip, es[0]);
        walk_from(rules, st2, skip2, es.drop_first())
    }
}

/// Whether the resolved root `r` occurs among the resolved roots of the
/// partitions already walked.
pub open spec fn seen_root(seen: Seq<Seq<char>>, r: Seq<char>) -> bool {
    seen.contains(r)
}

/// The partitions from the front: one whose root is no directory, or
/// resolves to a root already walked, is passed over; the others are
/// walked, each from a fresh walk.
pub open spec fn partitions_from(
    rules: ModuleRules,
    st: CompileState,
    seen: Seq<Seq<char>>,
    ps: Seq<PartitionMirror>,
) -> CompileState
    decreases ps.len(),
{
    if ps.len() == 0 || st.error is Some {
        st
    } else {
        let p = ps[0];
        if !p.root_is_dir || seen_root(seen, p.resolved_root@) {
            partitions_from(rules, st, seen, ps.drop_first())
        } else {
            let st2 = walk_from(rules, st, None, p.entries@);
            partitions_from(rules, st2, seen.push(p.resolved_root@), ps.drop_first())
        }
    }
}

pub open spec fn mirror_root(mirror_path: Seq<char>, id: Seq<char>) -> Seq<char> {
    join_path(mirror_path, id)
}

pub open spec fn missing_mirror_error(id: Seq<char>, root: Seq<char>) -> Seq<char> {
    "missing Kasumi mirror content for module "@ + id + " at "@ + root
}

/// The modules from the back: a module that Kasumi does not serve is
/// passed over; one whose mirror root is missing stops compilation; the
/// others are compiled partition by partition.
pub open spec fn modules_from_back(
    mirror_path: Seq<char>,
    active: Seq<Seq<char>>,
    st: CompileState,
    ms: Seq<ModuleMirror>,
) -> CompileState
    decreases ms.len(),
{
    if ms.len() == 0 || st.error is Some {
        st
    } else {
        let m = ms.last();
        let id = m.module.id@;
        if !active.contains(id) {
            modules_from_back(mirror_path, active, st, ms.drop_last())
        } else if !m.root_exists {
            CompileState { error: Some(missing_mirror_error(id, mirror_root(mirror_path, id))), ..st }
        } else {
            let st2 = partitions_from(m.module.rules, st, seq![], m.partitions@);
            modules_from_back(mirror_path, active, st2, ms.drop_last())
        }
    }
}

/// The outcome of compiling all modules.
pub open spec fn spec_compile(
    mirror_path: Seq<char>,
    active: Seq<Seq<char>>,
    ms: Seq<ModuleMirror>,
) -> CompileState {
    modules_from_back(mirror_path, active, CompileState { out: empty_view(), error: None }, ms)
}

fn push_str_chars(v: &mut Vec<char>, s: &str)
    ensures
        final(v)@ == old(v)@ + s@,
{
    crate::text::append_str(v, s);
}

/// Whether a relative path names the replace marker.
pub fn replace_marker(relative: &str) -> (b: bool)
    ensures
        b == is_replace_marker(relative@),
{
    match file_name(relative) {
        Some(n) => eq_ignore_ascii_case(n.as_str(), ".replace"),
        None => false,
    }
}

/// A symlink in a mirror whose live target path is a directory compiles to
/// no rule: no add, hide or merge rule, no error, and nothing skipped
/// below it; the same holds of an entry whose module does not ask for
/// Kasumi at its path.
pub proof fn lemma_symlink_over_live_dir_compiles_to_nothing(
    rules: ModuleRules,
    st: CompileState,
    skip: Option<Seq<char>>,
    e: MirrorEntry,
)
    ensures
        e.kind == MirrorKind::Symlink && e.target_is_dir ==> {
            let r = entry_step(rules, st, skip, e);
            &&& r.0.out.adds == st.out.adds
            &&& r.0.out.hides == st.out.hides
            &&& r.0.out.merges == st.out.merges
            &&& r.0.error == st.error
            &&& r.1 == skip
        },
        rules.spec_mode(e.relative@) != MountMode::Kasumi ==> entry_step(rules, st, skip, e) == (st, skip),
{
}

/// The path on the live system that the mirror entry at `relative` stands
/// for: `"/"` and `relative`, resolved on disk against the root `"/"` (see
/// `resolve_path_with_root`).
pub fn mirror_target(relative: &str) -> (t: String)
    ensures
        exists|probes: Seq<bool>|
            t@ == #[trigger] crate::path::spec_resolve_with_root("/"@, seq!['/'] + relative@, probes),
{
    let mut v: Vec<char> = Vec::new();
    v.push('/');
    push_str_chars(&mut v, relative);
    let p = string_from_chars(&v);
    assert(p@ =~= seq!['/'] + relative@);
    crate::path::resolve_path_with_root("/", p.as_str())
}

fn below_dir(path: &str, dir: &str) -> (b: bool)
    ensures
        b == below(path@, dir@),
{
    let p = chars_of(path);
    let mut d = chars_of(dir);
    d.push('/');
    crate::text::starts_with_chars(&p, &d)
}

fn metadata_message(source: &str) -> (m: String)
    ensures
        m@ == metadata_error(source@),
{
    let mut v: Vec<char> = Vec::new();
    push_str_chars(&mut v, "failed to read metadata for kasumi source ");
    push_str_chars(&mut v, source);
    string_from_chars(&v)
}

fn missing_message(id: &str, root: &str) -> (m: String)
    ensures
        m@ == missing_mirror_error(id@, root@),
{
    let mut v: Vec<char> = Vec::new();
    push_str_chars(&mut v, "missing Kasumi mirror content for module ");
    push_str_chars(&mut v, id);
    push_str_chars(&mut v, " at ");
    push_str_chars(&mut v, root);
    string_from_chars(&v)
}

/// Applies one entry of a walk to the compiled rules; `Err` carries the
/// message of an entry whose metadata could not be read.
pub fn compile_entry(
    rules: &ModuleRules,
    out: &mut CompiledRules,
    skip: &mut Option<String>,
    e: &MirrorEntry,
) -> (r: Result<(), String>)
    ensures
        ({
            let (st, sk) = entry_step(
                *rules,
                CompileState { out: old(out).view_of(), error: None },
                crate::validation::opt_view(*old(skip)),
                *e,
            );
            &&& st.out == final(out).view_of()
            &&& crate::validation::opt_view(*final(skip)) == sk
            &&& match r {
                Ok(()) => st.error is None,
                Err(m) => st.error == Some(m@),
            }
        }),
{
    let ghost out0 = out.view_of();
    let rel = e.relative.as_str();
    let skipped = match skip {
        Some(d) => below_dir(rel, d.as_str()),
        None => false,
    };
    if skipped {
        return Ok(());
    }
    if rules.get_mode(rel) != MountMode::Kasumi || replace_marker(rel) {
        return Ok(());
    }
    let target = e.target.clone();
    if e.kind == MirrorKind::Directory {
        if e.target_is_dir {
            out.merge_rules.push(KasumiMergeRule { target, source: e.source.clone() });
            proof {
                assert(merge_views(out.merge_rules@) =~= out0.merges.push((e.target@, e.source@)));
            }
            *skip = Some(e.relative.clone());
        }
        return Ok(());
    }
    if e.kind == MirrorKind::Symlink && e.target_is_dir {
        return Ok(());
    }
    match e.meta {
        None => Err(metadata_message(e.source.as_str())),
        Some(m) => {
            let (t, hide_only) = build_dtype(m);
            if hide_only {
                out.hide_rules.push(target);
                proof {
                    assert(string_views(out.hide_rules@) =~= out0.hides.push(e.target@));
                }
            } else {
                out.add_rules.push(KasumiAddRule { target, source: e.source.clone(), file_type: t });
                proof {
                    assert(add_views(out.add_rules@) =~= out0.adds.push((e.target@, e.source@, t)));
                }
            }
            Ok(())
        },
    }
}

/// The compiled rules after a walk, with its outcome.
pub open spec fn walk_result(rules: ModuleRules, out: CompiledView, es: Seq<MirrorEntry>) -> CompileState {
    walk_from(rules, CompileState { out, error: None }, None, es)
}

/// Applies a whole walk below one partition root, stopping at the first
/// entry whose metadata could not be read.
pub fn compile_walk(rules: &ModuleRules, out: &mut CompiledRules, entries: &Vec<MirrorEntry>) -> (r:
    Result<(), String>)
    ensures
        ({
            let st = walk_result(*rules, old(out).view_of(), entries@);
            &&& st.out == final(out).view_of()
            &&& match r {
                Ok(()) => st.error is None,
                Err(m) => st.error == Some(m@),
            }
        }),
{
    let ghost goal = walk_result(*rules, out.view_of(), entries@);
    let mut skip: Option<String> = None;
    let n = entries.len();
    let mut i: usize = 0;
    assert(entries@.subrange(0, n as int) =~= entries@);
    while i < n
        invariant
            n == entries@.len(),
            i <= n,
            goal == walk_result(*rules, old(out).view_of(), entries@),
            goal == walk_from(
                *rules,
                CompileState { out: out.view_of(), error: None },
                crate::validation::opt_view(skip),
                entries@.subrange(i as int, n as int),
            ),
        decreases n - i,
    {
        let ghost before = out.view_of();
        let ghost sk0 = crate::validation::opt_view(skip);
        let r = compile_entry(rules, out, &mut skip, &entries[i]);
        proof {
            let rest = entries@.subrange(i as int, n as int);
            assert(rest[0] == entries@[i as int]);
            assert(rest.drop_first() =~= entries@.subrange(i + 1, n as int));
        }
        match r {
            Ok(()) => {},
            Err(m) => {
                proof {
                    let (st2, sk2) = entry_step(
                        *rules,
                        CompileState { out: before, error: None },
                        sk0,
                        entries@[i as int],
                    );
                    assert(walk_from(*rules, st2, sk2, entries@.subrange(i + 1, n as int)) == st2);
                }
                return Err(m);
            },
        }
        i = i + 1;
    }
    Ok(())
}

/// The partitions of one module after the walks, with their outcome.
pub open spec fn partitions_result(
    rules: ModuleRules,
    out: CompiledView,
    ps: Seq<PartitionMirror>,
) -> CompileState {
    partitions_from(rules, CompileState { out, error: None }, seq![], ps)
}

/// Walks every managed partition of a module whose root is a directory,
/// each resolved root once.
pub fn compile_partitions(
    rules: &ModuleRules,
    out: &mut CompiledRules,
    ps: &Vec<PartitionMirror>,
) -> (r: Result<(), String>)
    ensures
        ({
            let st = partitions_result(*rules, old(out).view_of(), ps@);
            &&& st.out == final(out).view_of()
            &&& match r {
                Ok(()) => st.error is None,
                Err(m) => st.error == Some(m@),
            }
        }),
{
    let ghost goal = partitions_result(*rules, out.view_of(), ps@);
    let mut seen: Vec<String> = Vec::new();
    let n = ps.len();
    let mut i: usize = 0;
    assert(ps@.subrange(0, n as int) =~= ps@);
    assert(string_views(seen@) =~= Seq::<Seq<char>>::empty());
    while i < n
        invariant
            n == ps@.len(),
            i <= n,
            goal == partitions_result(*rules, old(out).view_of(), ps@),
            goal == partitions_from(
                *rules,
                CompileState { out: out.view_of(), error: None },
                string_views(seen@),
                ps@.subrange(i as int, n as int),
            ),
        decreases n - i,
    {
        let p = &ps[i];
        proof {
            let rest = ps@.subrange(i as int, n as int);
            assert(rest[0] == ps@[i as int]);
            assert(rest.drop_first() =~= ps@.subrange(i + 1, n as int));
        }
        let dup = contains_str(&seen, p.resolved_root.as_str());
        if p.root_is_dir && !dup {
            let ghost before = out.view_of();
            let r = compile_walk(rules, out, &p.entries);
            match r {
                Ok(()) => {},
                Err(m) => {
                    proof {
                        let st2 = walk_result(*rules, before, p.entries@);
                        assert(partitions_from(
                            *rules,
                            st2,
                            string_views(seen@).push(p.resolved_root@),
                            ps@.subrange(i + 1, n as int),
                        ) == st2);
                    }
                    return Err(m);
                },
            }
            let ghost old_seen = string_views(seen@);
            seen.push(p.resolved_root.clone());
            assert(string_views(seen@) =~= old_seen.push(p.resolved_root@));
        }
        i = i + 1;
    }
    Ok(())
}

/// Compiles the Kasumi rules of the modules that the plan routes through
/// Kasumi, walking the modules from the last to the first.
pub fn compile_rules(mirrors: &Vec<ModuleMirror>, plan: &MountPlan, config: &Config) -> (r: Result<
    CompiledRules,
    String,
>)
    ensures
        ({
            let st = spec_compile(
                config.kasumi.mirror_path@,
                string_views(plan.kasumi_module_ids@),
                mirrors@,
            );
            match r {
                Ok(c) => st.error is None && c.view_of() == st.out,
                Err(m) => st.error == Some(m@),
            }
        }),
{
    let mirror_path = config.kasumi.mirror_path.as_str();
    let active = &plan.kasumi_module_ids;
    let ghost goal = spec_compile(mirror_path@, string_views(active@), mirrors@);
    let mut out = CompiledRules { add_rules: Vec::new(), merge_rules: Vec::new(), hide_rules: Vec::new() };
    proof {
        assert(add_views(out.add_rules@) =~= Seq::<(Seq<char>, Seq<char>, i32)>::empty());
        assert(merge_views(out.merge_rules@) =~= Seq::<(Seq<char>, Seq<char>)>::empty());
        assert(string_views(out.hide_rules@) =~= Seq::<Seq<char>>::empty());
        assert(mirrors@.subrange(0, mirrors@.len() as int) =~= mirrors@);
    }
    let mut i: usize = mirrors.len();
    while i > 0
        invariant
            i <= mirrors@.len(),
            mirror_path@ == config.kasumi.mirror_path@,
            active@ == plan.kasumi_module_ids@,
            goal == spec_compile(mirror_path@, string_views(active@), mirrors@),
            goal == modules_from_back(
                mirror_path@,
                string_views(active@),
                CompileState { out: out.view_of(), error: None },
                mirrors@.subrange(0, i as int),
            ),
        decreases i,
    {
        let m = &mirrors[i - 1];
        proof {
            let pre = mirrors@.subrange(0, i as int);
            assert(pre.last() == mirrors@[i - 1]);
            assert(pre.drop_last() =~= mirrors@.subrange(0, i - 1));
        }
        let id = m.module.id.as_str();
        if contains_str(active, id) {
            if !m.root_exists {
                let root = join_name(mirror_path, id);
                let msg = missing_message(id, root.as_str());
                return Err(msg);
            }
            let ghost before = out.view_of();
            match compile_partitions(&m.module.rules, &mut out, &m.partitions) {
                Ok(()) => {},
                Err(msg) => {
                    proof {
                        let st2 = partitions_result(m.module.rules, before, m.partitions@);
                        assert(modules_from_back(
                            mirror_path@,
                            string_views(active@),
                            st2,
                            mirrors@.subrange(0, i - 1),
                        ) == st2);
                    }
                    return Err(msg);
                },
            }
        }
        i = i - 1;
    }
    Ok(out)
}

/// Modules that no plan routes through Kasumi are passed over, whatever
/// their mirrors hold.
proof fn lemma_inactive_modules_pass(mirror_path: Seq<char>, st: CompileState, ms: Seq<ModuleMirror>)
    ensures
        modules_from_back(mirror_path, seq![], st, ms) == st,
    decreases ms.len(),
{
    if ms.len() > 0 && st.error is None {
        lemma_inactive_modules_pass(mirror_path, st, ms.drop_last());
    }
}

/// Compilation yields no rule and no error when the plan routes no module
/// through Kasumi.
pub proof fn lemma_no_active_modules_no_rules(mirror_path: Seq<char>, ms: Seq<ModuleMirror>)
    ensures
        spec_compile(mirror_path, seq![], ms) == (CompileState { out: empty_view(), error: None }),
{
    lemma_inactive_modules_pass(mirror_path, CompileState { out: empty_view(), error: None }, ms);
}

} // verus!
