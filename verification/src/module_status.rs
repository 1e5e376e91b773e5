//! The status line that the module shows in the root manager.

use vstd::prelude::*;

use crate::flavor::BuildFlavor;
use crate::storage::StorageMode;
use crate::text::{
    append_chars, append_str, chars_of, decimal, decimal_chars, has_prefix, join_chars, join_with,
    lines_of, split_lines, starts_with_chars, string_from_chars, views,
};

verus! {

pub open spec fn stat(label: Seq<char>, n: nat) -> Seq<char> {
    label + decimal(n)
}

/// The counters shown: Kasumi's when the build has it and it is enabled,
/// overlay and magic always, blacklisted modules when there are any.
pub open spec fn spec_stats(
    flavor: BuildFlavor,
    kasumi_enabled: bool,
    overlay_count: nat,
    magic_count: nat,
    kasumi_count: nat,
    blacklisted_count: nat,
) -> Seq<Seq<char>> {
    let k: Seq<Seq<char>> = if flavor.spec_enable_kasumi() && kasumi_enabled {
        seq![stat("Kasumi:"@, kasumi_count)]
    } else {
        seq![]
    };
    let b: Seq<Seq<char>> = if blacklisted_count > 0 {
        seq![stat("Blacklist:"@, blacklisted_count)]
    } else {
        seq![]
    };
    k + seq![stat("Overlay:"@, overlay_count), stat("Magic:"@, magic_count)] + b
}

pub open spec fn mode_label(mode: StorageMode) -> Seq<char> {
    match mode {
        StorageMode::Tmpfs => "Tmpfs"@,
        StorageMode::Ext4 => "Ext4"@,
    }
}

pub open spec fn mode_emoji(mode: StorageMode) -> Seq<char> {
    match mode {
        StorageMode::Tmpfs => "🐾"@,
        StorageMode::Ext4 => "💿"@,
    }
}

/// The description written while mounts are up.
pub open spec fn spec_running_description(
    flavor: BuildFlavor,
    mode: StorageMode,
    kasumi_enabled: bool,
    overlay_count: nat,
    magic_count: nat,
    kasumi_count: nat,
    blacklisted_count: nat,
) -> Seq<char> {
    "😋 运行中喵～ ("@ + mode_label(mode) + ") "@ + mode_emoji(mode) + "  "@ + join_with(
        spec_stats(flavor, kasumi_enabled, overlay_count, magic_count, kasumi_count, blacklisted_count),
        "  "@,
    )
}

/// `pat` occurs in `s`.
pub open spec fn occurs_in(pat: Seq<char>, s: Seq<char>) -> bool {
    exists|i: int| 0 <= i && i + pat.len() <= s.len() && #[trigger] s.subrange(i, i + pat.len()) == pat
}

/// The running description names the storage mode in use, in brackets:
/// `"(Tmpfs)"` on tmpfs storage, `"(Ext4)"` on an ext4 image.
pub proof fn lemma_running_description_names_storage(
    flavor: BuildFlavor,
    mode: StorageMode,
    kasumi_enabled: bool,
    overlay_count: nat,
    magic_count: nat,
    kasumi_count: nat,
    blacklisted_count: nat,
)
    ensures
        mode == StorageMode::Tmpfs ==> occurs_in(
            "(Tmpfs)"@,
            spec_running_description(
                flavor,
                mode,
                kasumi_enabled,
                overlay_count,
                magic_count,
                kasumi_count,
                blacklisted_count,
            ),
        ),
        mode == StorageMode::Ext4 ==> occurs_in(
            "(Ext4)"@,
            spec_running_description(
                flavor,
                mode,
                kasumi_enabled,
                overlay_count,
                magic_count,
                kasumi_count,
                blacklisted_count,
            ),
        ),
{
    reveal_strlit("😋 运行中喵～ (");
    reveal_strlit(") ");
    reveal_strlit("(Tmpfs)");
    reveal_strlit("(Ext4)");
    reveal_strlit("Tmpfs");
    reveal_strlit("Ext4");
    let pre = "😋 运行中喵～ ("@;
    let s = spec_running_description(
        flavor,
        mode,
        kasumi_enabled,
        overlay_count,
        magic_count,
        kasumi_count,
        blacklisted_count,
    );
    let label = mode_label(mode);
    let rest = ") "@ + mode_emoji(mode) + "  "@ + join_with(
        spec_stats(flavor, kasumi_enabled, overlay_count, magic_count, kasumi_count, blacklisted_count),
        "  "@,
    );
    assert(s =~= pre + label + rest);
    let i = pre.len() - 1;
    assert(pre[i] == '(');
    assert(rest[0] == ')');
    let pat = seq!['('] + label + seq![')'];
    assert(s.subrange(i, i + pat.len()) =~= pat);
    if mode == StorageMode::Tmpfs {
        assert(pat =~= "(Tmpfs)"@);
    } else {
        assert(pat =~= "(Ext4)"@);
    }
}

fn stat_chars(label: &str, n: usize) -> (r: Vec<char>)
    ensures
        r@ == stat(label@, n as nat),
{
    let mut v = chars_of(label);
    let d = decimal_chars(n);
    append_chars(&mut v, &d);
    v
}

/// The description written while mounts are up (see
/// `spec_running_description`).
pub fn running_description(
    flavor: BuildFlavor,
    storage_mode: StorageMode,
    kasumi_enabled: bool,
    overlay_count: usize,
    magic_count: usize,
    kasumi_count: usize,
    blacklisted_count: usize,
) -> (s: String)
    ensures
        s@ == spec_running_description(
            flavor,
            storage_mode,
            kasumi_enabled,
            overlay_count as nat,
            magic_count as nat,
            kasumi_count as nat,
            blacklisted_count as nat,
        ),
{
    let (mode_str, emoji) = match storage_mode {
        StorageMode::Tmpfs => ("Tmpfs", "🐾"),
        StorageMode::Ext4 => ("Ext4", "💿"),
    };
    let mut stats: Vec<Vec<char>> = Vec::new();
    if flavor.enable_kasumi() && kasumi_enabled {
        stats.push(stat_chars("Kasumi:", kasumi_count));
    }
    stats.push(stat_chars("Overlay:", overlay_count));
    stats.push(stat_chars("Magic:", magic_count));
    if blacklisted_count > 0 {
        stats.push(stat_chars("Blacklist:", blacklisted_count));
    }
    assert(views(stats@) =~= spec_stats(
        flavor,
        kasumi_enabled,
        overlay_count as nat,
        magic_count as nat,
        kasumi_count as nat,
        blacklisted_count as nat,
    ));
    let sep = chars_of("  ");
    let joined = join_chars(&stats, &sep);
    let mut out = chars_of("😋 运行中喵～ (");
    append_str(&mut out, mode_str);
    append_str(&mut out, ") ");
    append_str(&mut out, emoji);
    append_str(&mut out, "  ");
    append_chars(&mut out, &joined);
    string_from_chars(&out)
}

/// The description written after an unrecoverable failure.
pub open spec fn spec_crash_description(reason: Seq<char>) -> Seq<char> {
    "😭 崩溃了呜～ 原因: "@ + reason
}

pub fn crash_description(reason: &str) -> (s: String)
    ensures
        s@ == spec_crash_description(reason@),
{
    let mut out = chars_of("😭 崩溃了呜～ 原因: ");
    append_str(&mut out, reason);
    string_from_chars(&out)
}

/// A `module.prop` line with its description replaced.
pub open spec fn described_line(line: Seq<char>, desc: Seq<char>) -> Seq<char> {
    if has_prefix(line, "description="@) {
        "description="@ + desc
    } else {
        line
    }
}

/// `module.prop` text with every `description=` line replaced, its lines
/// joined by `'\n'` and ended by one.
pub open spec fn spec_with_description(content: Seq<char>, desc: Seq<char>) -> Seq<char> {
    join_with(lines_of(content).map_values(|l: Seq<char>| described_line(l, desc)), "\n"@)
        + "\n"@
}

/// `module.prop` text with its description set to `desc` (see
/// `spec_with_description`).
pub fn set_description(content: &str, desc: &str) -> (s: String)
    ensures
        s@ == spec_with_description(content@, desc@),
{
    let c = chars_of(content);
    let lines = split_lines(&c);
    let prefix = chars_of("description=");
    let d = chars_of(desc);
    let mut out: Vec<Vec<char>> = Vec::new();
    let mut i: usize = 0;
    while i < lines.len()
        invariant
            i <= lines@.len(),
            views(lines@) == lines_of(content@),
            prefix@ == "description="@,
            d@ == desc@,
            views(out@) == views(lines@).take(i as int).map_values(
                |l: Seq<char>| described_line(l, desc@),
            ),
        decreases lines@.len() - i,
    {
        let line = if starts_with_chars(&lines[i], &prefix) {
            let mut l = crate::path::copy_chars(&prefix);
            append_chars(&mut l, &d);
            l
        } else {
            crate::path::copy_chars(&lines[i])
        };
        proof {
            crate::text::lemma_views_push(out@, line);
        }
        out.push(line);
        assert(views(out@) =~= views(lines@).take(i + 1).map_values(
            |l: Seq<char>| described_line(l, desc@),
        ));
        i = i + 1;
    }
    assert(views(lines@).take(i as int) =~= views(lines@));
    let nl = chars_of("\n");
    let mut joined = join_chars(&out, &nl);
    append_chars(&mut joined, &nl);
    string_from_chars(&joined)
}

/// `module.prop` text updated with the running description (see
/// `spec_running_description`).
pub fn update_description(
    prop_content: &str,
    flavor: BuildFlavor,
    storage_mode: StorageMode,
    kasumi_enabled: bool,
    overlay_count: usize,
    magic_count: usize,
    kasumi_count: usize,
    blacklisted_count: usize,
) -> (s: String)
    ensures
        s@ == spec_with_description(
            prop_content@,
            spec_running_description(
                flavor,
                storage_mode,
                kasumi_enabled,
                overlay_count as nat,
                magic_count as nat,
                kasumi_count as nat,
                blacklisted_count as nat,
            ),
        ),
{
    let desc = running_description(
        flavor,
        storage_mode,
        kasumi_enabled,
        overlay_count,
        magic_count,
        kasumi_count,
        blacklisted_count,
    );
    set_description(prop_content, desc.as_str())
}

/// `module.prop` text updated with the failure description.
pub fn update_crash_description(prop_content: &str, reason: &str) -> (s: String)
    ensures
        s@ == spec_with_description(prop_content@, spec_crash_description(reason@)),
{
    let desc = crash_description(reason);
    set_description(prop_content, desc.as_str())
}

} // verus!
