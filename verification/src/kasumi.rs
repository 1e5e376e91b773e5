//! The Kasumi kernel interface: availability, the requests the library
//! sends to the kernel module and the interpretation of its replies.
//!
//! The kernel calls themselves are made by the caller; every value that
//! depends on the kernel module's header (protocol version, feature bits,
//! buffer sizes) is handed in as a `KasumiAbi`.

use vstd::prelude::*;
use crate::text::{chars_of, has_prefix, lines_of, split_lines, starts_with_chars, views};
use crate::validation::{first_index, lemma_first_index, find_char};
use vstd::string::StringSliceAdditionalSpecFns;

verus! {

/// Whether the Kasumi backend can be used.
#[derive(Debug, Clone, Copy, PartialEq, Eq, Structural)]
pub enum KasumiStatus {
    Available,
    NotPresent,
    KernelNotSupported,
    ModuleTooOld,
}

impl Default for KasumiStatus {
    fn default() -> (s: Self)
        ensures
            s == KasumiStatus::NotPresent,
    {
        KasumiStatus::NotPresent
    }
}

pub open spec fn spec_status_name(status: KasumiStatus) -> Seq<char> {
    match status {
        KasumiStatus::Available => "available"@,
        KasumiStatus::NotPresent => "not_present"@,
        KasumiStatus::KernelNotSupported => "kernel_not_supported"@,
        KasumiStatus::ModuleTooOld => "module_too_old"@,
    }
}

/// The name under which a status is reported.
pub fn status_name(status: KasumiStatus) -> (s: &'static str)
    ensures
        s@ == spec_status_name(status),
{
    match status {
        KasumiStatus::Available => "available",
        KasumiStatus::NotPresent => "not_present",
        KasumiStatus::KernelNotSupported => "kernel_not_supported",
        KasumiStatus::ModuleTooOld => "module_too_old",
    }
}

pub open spec fn is_ascii_digit(c: char) -> bool {
    '0' <= c && c <= '9'
}

/// Length of the run of ASCII digits that starts `s`.
pub open spec fn digit_run(s: Seq<char>) -> nat
    decreases s.len(),
{
    if s.len() == 0 || !is_ascii_digit(s[0]) {
        0
    } else {
        1 + digit_run(s.drop_first())
    }
}

/// The `major.minor` start of a kernel release such as `"5.10.123-x"`: up
/// to the first dot and the digits after it; empty without a dot.
pub open spec fn spec_release_prefix(release: Seq<char>) -> Seq<char> {
    let d1 = first_index(release, '.') as int;
    if d1 >= release.len() {
        Seq::<char>::empty()
    } else {
        release.take(d1 + 1 + digit_run(release.skip(d1 + 1int)) as int)
    }
}

/// The kernel versions for which a Kasumi module is built.
pub open spec fn supported_kernels() -> Seq<Seq<char>> {
    seq!["5.10"@, "5.15"@, "6.1"@, "6.6"@, "6.12"@]
}

proof fn lemma_digit_run(s: Seq<char>)
    ensures
        digit_run(s) <= s.len(),
        forall|j: int| 0 <= j < digit_run(s) ==> is_ascii_digit(s[j]),
        digit_run(s) < s.len() ==> !is_ascii_digit(s[digit_run(s) as int]),
    decreases s.len(),
{
    if s.len() > 0 && is_ascii_digit(s[0]) {
        lemma_digit_run(s.drop_first());
        assert forall|j: int| 0 <= j < digit_run(s) implies is_ascii_digit(s[j]) by {
            if j > 0 {
                assert(s[j] == s.drop_first()[j - 1]);
            }
        }
    }
}

/// The `major.minor` start of a kernel release.
pub fn kernel_release_prefix(release: &str) -> (r: Vec<char>)
    ensures
        r@ == spec_release_prefix(release@),
{
    let s = chars_of(release);
    let d1 = find_char(&s, '.');
    proof {
        lemma_first_index(s@, '.');
    }
    if d1 >= s.len() {
        return Vec::new();
    }
    let mut j: usize = d1 + 1;
    assert(s@.skip(j as int).skip(0) =~= s@.skip(j as int));
    while j < s.len() && '0' <= s[j] && s[j] <= '9'
        invariant
            d1 < j <= s@.len(),
            digit_run(s@.skip(d1 + 1)) == (j - d1 - 1) + digit_run(s@.skip(j as int)),
        decreases s@.len() - j,
    {
        assert(s@.skip(j as int).drop_first() =~= s@.skip(j + 1));
        j = j + 1;
    }
    if j < s.len() {
        assert(!is_ascii_digit(s@.skip(j as int)[0]));
    }
    let mut out: Vec<char> = Vec::new();
    let mut k: usize = 0;
    while k < j
        invariant
            k <= j <= s@.len(),
            out@ == s@.take(k as int),
        decreases j - k,
    {
        out.push(s[k]);
        assert(out@ =~= s@.take(k + 1));
        k = k + 1;
    }
    out
}

/// Whether a kernel of release `release` has a prebuilt Kasumi module:
/// its `major.minor` start is one of the supported versions.
pub fn kernel_is_supported(release: &str) -> (b: bool)
    ensures
        b == supported_kernels().contains(spec_release_prefix(release@)),
{
    let p = kernel_release_prefix(release);
    let known = ["5.10", "5.15", "6.1", "6.6", "6.12"];
    let mut i: usize = 0;
    while i < 5
        invariant
            i <= 5,
            p@ == spec_release_prefix(release@),
            forall|k: int| 0 <= k < 5 ==> (#[trigger] known@[k])@ == supported_kernels()[k],
            forall|k: int| 0 <= k < i ==> supported_kernels()[k] != p@,
        decreases 5 - i,
    {
        let c = chars_of(known[i]);
        if crate::text::chars_eq(&c, &p) {
            assert(supported_kernels()[i as int] == p@);
            return true;
        }
        i = i + 1;
    }
    false
}

/// The module names under which Kasumi shows in `/proc/modules`.
pub open spec fn is_kasumi_module_line(line: Seq<char>) -> bool {
    ||| has_prefix(line, "kasumi_lkm "@)
    ||| has_prefix(line, "kasumi_lkm\t"@)
    ||| has_prefix(line, "kasumi "@)
    ||| has_prefix(line, "kasumi\t"@)
}

/// Whether the module list (the text of `/proc/modules`) has Kasumi loaded.
pub fn module_loaded(proc_modules: &str) -> (b: bool)
    ensures
        b == exists|i: int|
            0 <= i < lines_of(proc_modules@).len() && is_kasumi_module_line(
                #[trigger] lines_of(proc_modules@)[i],
            ),
{
    let s = chars_of(proc_modules);
    let lines = split_lines(&s);
    let p1 = chars_of("kasumi_lkm ");
    let p2 = chars_of("kasumi_lkm\t");
    let p3 = chars_of("kasumi ");
    let p4 = chars_of("kasumi\t");
    let mut i: usize = 0;
    while i < lines.len()
        invariant
            i <= lines@.len(),
            views(lines@) == lines_of(proc_modules@),
            p1@ == "kasumi_lkm "@,
            p2@ == "kasumi_lkm\t"@,
            p3@ == "kasumi "@,
            p4@ == "kasumi\t"@,
            forall|k: int| 0 <= k < i ==> !is_kasumi_module_line(#[trigger] lines_of(proc_modules@)[k]),
        decreases lines@.len() - i,
    {
        assert(views(lines@)[i as int] == lines@[i as int]@);
        if starts_with_chars(&lines[i], &p1) || starts_with_chars(&lines[i], &p2)
            || starts_with_chars(&lines[i], &p3) || starts_with_chars(&lines[i], &p4) {
            assert(is_kasumi_module_line(lines_of(proc_modules@)[i as int]));
            return true;
        }
        i = i + 1;
    }
    false
}

/// What was learned from the kernel to decide the status: whether its
/// release is supported, whether the module is loaded, and the protocol
/// version it answered (none when the query failed).
#[derive(Debug, Clone, Copy)]
pub struct KasumiProbe {
    pub kernel_supported: bool,
    pub module_loaded: bool,
    pub protocol_version: Option<i32>,
}

/// The status that a probe shows, for a library built for protocol
/// `expected`.
pub open spec fn spec_status_from_probe(probe: KasumiProbe, expected: i32) -> KasumiStatus {
    if !probe.kernel_supported {
        KasumiStatus::KernelNotSupported
    } else if !probe.module_loaded {
        KasumiStatus::NotPresent
    } else {
        match probe.protocol_version {
            Some(v) => if v < expected {
                KasumiStatus::KernelNotSupported
            } else if v > expected {
                KasumiStatus::ModuleTooOld
            } else {
                KasumiStatus::Available
            },
            None => KasumiStatus::NotPresent,
        }
    }
}

pub fn status_from_probe(probe: &KasumiProbe, expected: i32) -> (s: KasumiStatus)
    ensures
        s == spec_status_from_probe(*probe, expected),
{
    if !probe.kernel_supported {
        KasumiStatus::KernelNotSupported
    } else if !probe.module_loaded {
        KasumiStatus::NotPresent
    } else {
        match probe.protocol_version {
            Some(v) => if v < expected {
                KasumiStatus::KernelNotSupported
            } else if v > expected {
                KasumiStatus::ModuleTooOld
            } else {
                KasumiStatus::Available
            },
            None => KasumiStatus::NotPresent,
        }
    }
}

/// The status found by the last check, until it is invalidated.
#[derive(Debug, Clone, Copy, PartialEq, Eq, Structural)]
pub struct StatusCache {
    pub checked: bool,
    pub status: KasumiStatus,
}

impl StatusCache {
    /// A cache that holds nothing yet.
    pub fn new() -> (c: Self)
        ensures
            !c.checked && c.status == KasumiStatus::NotPresent,
    {
        StatusCache { checked: false, status: KasumiStatus::NotPresent }
    }
}

/// The cache and the status after a check with `probe`.
pub open spec fn spec_check(cache: StatusCache, probe: KasumiProbe, expected: i32) -> (
    StatusCache,
    KasumiStatus,
) {
    if cache.checked {
        (cache, cache.status)
    } else {
        let s = spec_status_from_probe(probe, expected);
        (StatusCache { checked: true, status: s }, s)
    }
}

/// The status: the cached one if there is one, else the one `probe` shows,
/// which is then cached.
pub fn check_status(cache: &mut StatusCache, probe: &KasumiProbe, expected: i32) -> (s: KasumiStatus)
    ensures
        (*final(cache), s) == spec_check(*old(cache), *probe, expected),
{
    if cache.checked {
        return cache.status;
    }
    let s = status_from_probe(probe, expected);
    cache.checked = true;
    cache.status = s;
    s
}

/// Whether Kasumi can be used: the status is `Available`.
pub fn can_operate(cache: &mut StatusCache, probe: &KasumiProbe, expected: i32) -> (b: bool)
    ensures
        *final(cache) == spec_check(*old(cache), *probe, expected).0,
        b == (spec_check(*old(cache), *probe, expected).1 == KasumiStatus::Available),
{
    let s = check_status(cache, probe, expected);
    s == KasumiStatus::Available
}

/// Forgets the cached status, so that the next check probes again.
pub fn invalidate_status_cache(cache: &mut StatusCache)
    ensures
        *final(cache) == spec_invalidated(),
{
    cache.checked = false;
    cache.status = KasumiStatus::NotPresent;
}

/// The cache after invalidation.
pub open spec fn spec_invalidated() -> StatusCache {
    StatusCache { checked: false, status: KasumiStatus::NotPresent }
}

/// A status once checked stays as it was until the cache is invalidated,
/// whatever a later probe would show; after invalidation the next check
/// gives what its own probe shows.
pub proof fn lemma_status_cache_laws(
    cache: StatusCache,
    first: KasumiProbe,
    second: KasumiProbe,
    expected: i32,
)
    ensures
        ({
            let (c1, s1) = spec_check(cache, first, expected);
            let (c2, s2) = spec_check(c1, second, expected);
            s2 == s1 && c2 == c1
        }),
        spec_check(spec_invalidated(), second, expected).1 == spec_status_from_probe(
            second,
            expected,
        ),
{
}


/// The bits that the kernel module's header assigns to its features.
#[derive(Debug, Clone, Copy)]
pub struct KasumiFeatureBits {
    pub kstat_spoof: i32,
    pub uname_spoof: i32,
    pub cmdline_spoof: i32,
    pub selinux_bypass: i32,
    pub merge_dir: i32,
    pub mount_hide: i32,
    pub maps_spoof: i32,
    pub statfs_spoof: i32,
    pub fake_mountinfo: i32,
    pub selinux_fix: i32,
}

/// What the kernel module's header fixes: the protocol version this
/// library speaks, the feature bits, and the sizes of the text buffers of
/// its request records.
#[derive(Debug, Clone, Copy)]
pub struct KasumiAbi {
    pub protocol_version: i32,
    pub features: KasumiFeatureBits,
    pub kstat_pathname_len: usize,
    pub uname_field_len: usize,
    pub cmdline_len: usize,
    pub maps_pathname_len: usize,
    pub mount_hide_pattern_len: usize,
    pub statfs_path_len: usize,
}

impl KasumiAbi {
    /// Every text buffer has room for at least its terminating NUL.
    pub open spec fn wf(&self) -> bool {
        &&& self.kstat_pathname_len > 0
        &&& self.uname_field_len > 0
        &&& self.cmdline_len > 0
        &&& self.maps_pathname_len > 0
        &&& self.mount_hide_pattern_len > 0
        &&& self.statfs_path_len > 0
    }
}

/// The features in the order they are reported, with their bits.
pub open spec fn feature_table(f: KasumiFeatureBits) -> Seq<(i32, Seq<char>)> {
    seq![
        (f.kstat_spoof, "kstat_spoof"@),
        (f.uname_spoof, "uname_spoof"@),
        (f.cmdline_spoof, "cmdline_spoof"@),
        (f.selinux_bypass, "selinux_bypass"@),
        (f.merge_dir, "merge_dir"@),
        (f.mount_hide, "mount_hide"@),
        (f.maps_spoof, "maps_spoof"@),
        (f.statfs_spoof, "statfs_spoof"@),
        (f.fake_mountinfo, "fake_mountinfo"@),
        (f.selinux_fix, "selinux_fix"@),
    ]
}

pub open spec fn feature_set(bits: i32) -> spec_fn((i32, Seq<char>)) -> bool {
    |e: (i32, Seq<char>)| (bits & e.0) != 0
}

pub open spec fn entry_name(e: (i32, Seq<char>)) -> Seq<char> {
    e.1
}

/// The names of the features whose bit is set in `bits`, in table order.
pub fn feature_names(bits: i32, f: &KasumiFeatureBits) -> (names: Vec<String>)
    ensures
        crate::order::string_views(names@) == feature_table(*f).filter(feature_set(bits)).map_values(
            |e: (i32, Seq<char>)| entry_name(e),
        ),
{
    let table: [(i32, &str); 10] = [
        (f.kstat_spoof, "kstat_spoof"),
        (f.uname_spoof, "uname_spoof"),
        (f.cmdline_spoof, "cmdline_spoof"),
        (f.selinux_bypass, "selinux_bypass"),
        (f.merge_dir, "merge_dir"),
        (f.mount_hide, "mount_hide"),
        (f.maps_spoof, "maps_spoof"),
        (f.statfs_spoof, "statfs_spoof"),
        (f.fake_mountinfo, "fake_mountinfo"),
        (f.selinux_fix, "selinux_fix"),
    ];
    let ghost spec_table = feature_table(*f);
    let ghost keep = feature_set(bits);
    assert forall|k: int| 0 <= k < 10 implies (#[trigger] table@[k]).0 == spec_table[k].0
        && table@[k].1@ == spec_table[k].1 by {}
    let mut names: Vec<String> = Vec::new();
    let mut i: usize = 0;
    assert(spec_table.take(0) =~= Seq::<(i32, Seq<char>)>::empty());
    assert(Seq::<(i32, Seq<char>)>::empty().filter(keep) =~= Seq::<(i32, Seq<char>)>::empty()) by {
        reveal(Seq::filter);
    }
    while i < 10
        invariant
            i <= 10,
            spec_table == feature_table(*f),
            spec_table.len() == 10,
            keep == feature_set(bits),
            forall|k: int| 0 <= k < 10 ==> (#[trigger] table@[k]).0 == spec_table[k].0
                && table@[k].1@ == spec_table[k].1,
            crate::order::string_views(names@) == spec_table.take(i as int).filter(keep).map_values(
                |e: (i32, Seq<char>)| entry_name(e),
            ),
        decreases 10 - i,
    {
        let (bit, name) = table[i];
        proof {
            spec_table.take(i as int).lemma_filter_push(spec_table[i as int], keep);
            assert(spec_table.take(i + 1) =~= spec_table.take(i as int).push(spec_table[i as int]));
        }
        if bits & bit != 0 {
            let ghost before = names@;
            assert(crate::order::string_views(before).len() == before.len());
            names.push(name.to_owned());
            assert(crate::order::string_views(names@) =~= crate::order::string_views(before).push(
                name@,
            ));
            assert(spec_table.take(i as int).filter(keep).push(spec_table[i as int]).map_values(
                |e: (i32, Seq<char>)| entry_name(e),
            ) =~= spec_table.take(i as int).filter(keep).map_values(
                |e: (i32, Seq<char>)| entry_name(e),
            ).push(name@));
        }
        i = i + 1;
    }
    assert(spec_table.take(10) =~= spec_table);
    names
}

/// Why a request to Kasumi was not made or failed.
#[derive(Debug, Clone)]
pub enum KasumiError {
    /// A path held a NUL byte.
    InteriorNul { path: String },
    /// A text did not fit its buffer, which holds `max` bytes besides the
    /// terminating NUL.
    FieldTooLong { field: String, max: usize },
    /// The kernel module answered the request with an error code.
    Kernel { context: String, code: i32 },
    /// The kernel call itself failed with error number `errno`.
    Ioctl { name: String, opcode: u64, errno: i32, class: ErrnoClass },
    /// The source of helper rules is not a directory.
    NotADirectory { path: String },
    /// A helper entry is neither a regular file, a symbolic link nor a
    /// whiteout.
    UnsupportedEntry { path: String },
}

/// The error numbers that call for their own hint.
#[derive(Debug, Clone, Copy, PartialEq, Eq, Structural)]
pub enum ErrnoClass {
    InvalidArgument,
    Unsupported,
    Other,
}

pub open spec fn spec_errno_hint(c: ErrnoClass) -> Seq<char> {
    match c {
        ErrnoClass::InvalidArgument => "invalid payload or protocol mismatch"@,
        ErrnoClass::Unsupported => "unsupported by the current kernel/module build"@,
        ErrnoClass::Other => "kernel call failed"@,
    }
}

pub fn errno_hint(c: ErrnoClass) -> (s: &'static str)
    ensures
        s@ == spec_errno_hint(c),
{
    match c {
        ErrnoClass::InvalidArgument => "invalid payload or protocol mismatch",
        ErrnoClass::Unsupported => "unsupported by the current kernel/module build",
        ErrnoClass::Other => "kernel call failed",
    }
}

/// `libc::EINVAL` (22 on Linux and Android).
#[verifier::external_body]
fn einval() -> (e: i32)
    ensures
        e == 22,
{
    libc::EINVAL
}

/// `libc::EOPNOTSUPP`: 95 on Android and on Linux for x86, ARM and the
/// other targets this project builds for. libc gives 122 on MIPS and 45 on
/// SPARC Linux, where this contract does not hold.
#[verifier::external_body]
fn eopnotsupp() -> (e: i32)
    ensures
        e == 95,
{
    libc::EOPNOTSUPP
}

/// `libc::ENOTTY` (25 on Linux and Android).
#[verifier::external_body]
fn enotty() -> (e: i32)
    ensures
        e == 25,
{
    libc::ENOTTY
}

/// The class of a raw error number: `EINVAL` asks for the payload hint,
/// `EOPNOTSUPP` and `ENOTTY` for the unsupported hint, any other for the
/// generic one.
pub open spec fn spec_errno_class(errno: i32) -> ErrnoClass {
    if errno == 22 {
        ErrnoClass::InvalidArgument
    } else if errno == 95 || errno == 25 {
        ErrnoClass::Unsupported
    } else {
        ErrnoClass::Other
    }
}

/// Sorts a raw error number (see `spec_errno_class`).
pub fn errno_class(errno: i32) -> (c: ErrnoClass)
    ensures
        c == spec_errno_class(errno),
{
    if errno == einval() {
        ErrnoClass::InvalidArgument
    } else if errno == eopnotsupp() || errno == enotty() {
        ErrnoClass::Unsupported
    } else {
        ErrnoClass::Other
    }
}

/// Zero bytes.
pub open spec fn zeros(n: nat) -> Seq<u8> {
    Seq::new(n, |i: int| 0u8)
}

/// `bytes` followed by NUL bytes up to `n` bytes in all.
pub open spec fn nul_padded(bytes: Seq<u8>, n: nat) -> Seq<u8> {
    bytes + zeros((n - bytes.len()) as nat)
}

/// A fixed-size C buffer after writing `bytes` into it: the bytes then NULs
/// when they fit with room for a terminator, else the buffer as it was.
pub open spec fn spec_write_c_buf(buf: Seq<u8>, bytes: Seq<u8>) -> Seq<u8> {
    if bytes.len() < buf.len() {
        nul_padded(bytes, buf.len())
    } else {
        buf
    }
}

/// Writing into a C buffer keeps its size, and the last write that fits
/// wins: whatever the buffer held or was written before, it then holds the
/// bytes followed by NULs only, as a freshly zeroed buffer would; a write
/// that does not fit leaves the buffer unchanged.
pub proof fn lemma_c_buf_last_write_wins(buf: Seq<u8>, a: Seq<u8>, b: Seq<u8>)
    ensures
        spec_write_c_buf(buf, a).len() == buf.len(),
        b.len() < buf.len() ==> spec_write_c_buf(spec_write_c_buf(buf, a), b) == spec_write_c_buf(
            zeros(buf.len()),
            b,
        ),
        b.len() < buf.len() ==> spec_write_c_buf(spec_write_c_buf(buf, a), b).take(b.len() as int) == b,
        b.len() < buf.len() ==> forall|k: int|
            b.len() <= k < buf.len() ==> #[trigger] spec_write_c_buf(spec_write_c_buf(buf, a), b)[k] == 0,
        b.len() >= buf.len() ==> spec_write_c_buf(buf, b) == buf,
{
    assert(zeros(buf.len()).len() == buf.len());
    if a.len() < buf.len() {
        assert(nul_padded(a, buf.len()).len() == buf.len());
    }
    if b.len() < buf.len() {
        let w = nul_padded(b, buf.len());
        assert(w.take(b.len() as int) =~= b);
        assert forall|k: int| b.len() <= k < buf.len() implies #[trigger] w[k] == 0 by {
            assert(w[k] == zeros((buf.len() - b.len()) as nat)[k - b.len()]);
        }
    }
}

/// A buffer of `n` NUL bytes.
pub fn zeroed_buf(n: usize) -> (b: Vec<u8>)
    ensures
        b@ == zeros(n as nat),
{
    let mut b: Vec<u8> = Vec::new();
    let mut i: usize = 0;
    while i < n
        invariant
            i <= n,
            b@ == zeros(i as nat),
        decreases n - i,
    {
        b.push(0u8);
        assert(b@ =~= zeros((i + 1) as nat));
        i = i + 1;
    }
    b
}

/// Writes `bytes` into a C text buffer, NUL-padding the rest; refused when
/// no room is left for the terminating NUL.
pub fn write_bytes_into_c_buf(buf: &mut Vec<u8>, bytes: &[u8], field: &str) -> (r: Result<
    (),
    KasumiError,
>)
    requires
        old(buf)@.len() > 0,
    ensures
        bytes@.len() >= old(buf)@.len() ==> *final(buf) == *old(buf) && (r matches Err(
            KasumiError::FieldTooLong { field: f, max },
        ) && f@ == field@ && max == old(buf)@.len() - 1),
        bytes@.len() < old(buf)@.len() ==> r is Ok && final(buf)@ == nul_padded(
            bytes@,
            old(buf)@.len(),
        ),
{
    let n = buf.len();
    if bytes.len() >= n {
        return Err(KasumiError::FieldTooLong { field: field.to_owned(), max: n - 1 });
    }
    let mut out: Vec<u8> = Vec::new();
    let mut i: usize = 0;
    while i < n
        invariant
            i <= n,
            bytes@.len() < n,
            out@ == nul_padded(bytes@, n as nat).take(i as int),
        decreases n - i,
    {
        if i < bytes.len() {
            out.push(bytes[i]);
        } else {
            out.push(0u8);
        }
        assert(out@ =~= nul_padded(bytes@, n as nat).take(i + 1));
        i = i + 1;
    }
    assert(nul_padded(bytes@, n as nat).take(n as int) =~= nul_padded(bytes@, n as nat));
    *buf = out;
    Ok(())
}

/// Whether the UTF-8 form of `s` holds a NUL byte.
pub open spec fn has_nul(s: &str) -> bool {
    seq_has_nul(s@)
}

/// Whether the UTF-8 form of the text `s` holds a NUL byte.
pub open spec fn seq_has_nul(s: Seq<char>) -> bool {
    vstd::utf8::encode_utf8(s).contains(0u8)
}

/// `path` as a C string: refused when it holds a NUL byte.
pub fn cstring_from_path(path: &str) -> (r: Result<String, KasumiError>)
    ensures
        has_nul(path) ==> (r matches Err(KasumiError::InteriorNul { path: p }) && p@ == path@),
        !has_nul(path) ==> (r matches Ok(s) && s@ == path@),
{
    let b = path.as_bytes();
    let mut i: usize = 0;
    while i < b.len()
        invariant
            i <= b@.len(),
            b@ == path.spec_bytes(),
            forall|k: int| 0 <= k < i ==> b@[k] != 0u8,
        decreases b@.len() - i,
    {
        if b[i] == 0u8 {
            assert(path.spec_bytes()[i as int] == 0u8);
            return Err(KasumiError::InteriorNul { path: path.to_owned() });
        }
        i = i + 1;
    }
    Ok(path.to_owned())
}


/// The directory-entry type that `libc` gives regular files (`DT_REG`).
#[verifier::external_body]
pub(crate) fn dt_reg() -> (t: i32)
    ensures
        t == 8,
{
    libc::DT_REG as i32
}

/// The directory-entry type that `libc` gives symbolic links (`DT_LNK`).
#[verifier::external_body]
pub(crate) fn dt_lnk() -> (t: i32)
    ensures
        t == 10,
{
    libc::DT_LNK as i32
}

/// The user ids hidden from Kasumi's view.
#[allow(non_camel_case_types)]
#[derive(Debug, Clone)]
pub struct kasumi_uid_list_arg {
    pub count: u32,
    pub reserved: u32,
    pub uids: Vec<u32>,
}

impl kasumi_uid_list_arg {
    pub fn from_slice(uids: &[u32]) -> (a: Self)
        ensures
            a.count == uids@.len() as u32,
            a.reserved == 0,
            a.uids@ == uids@,
    {
        let mut v: Vec<u32> = Vec::new();
        let mut i: usize = 0;
        while i < uids.len()
            invariant
                i <= uids@.len(),
                v@ == uids@.take(i as int),
            decreases uids@.len() - i,
        {
            v.push(uids[i]);
            assert(v@ =~= uids@.take(i + 1));
            i = i + 1;
        }
        assert(uids@.take(i as int) =~= uids@);
        kasumi_uid_list_arg { count: uids.len() as u32, reserved: 0, uids: v }
    }
}

/// A request to show another path for a file's status.
#[allow(non_camel_case_types)]
#[derive(Debug, Clone)]
pub struct kasumi_spoof_kstat {
    pub target_ino: u64,
    pub target_pathname: Vec<u8>,
    pub err: i32,
}

impl kasumi_spoof_kstat {
    /// A record of zeros, with a path buffer of the header's size.
    pub fn zeroed(abi: &KasumiAbi) -> (k: Self)
        ensures
            k.target_ino == 0,
            k.target_pathname@ == zeros(abi.kstat_pathname_len as nat),
            k.err == 0,
    {
        kasumi_spoof_kstat {
            target_ino: 0,
            target_pathname: zeroed_buf(abi.kstat_pathname_len),
            err: 0,
        }
    }

    pub fn new(abi: &KasumiAbi, target_ino: u64, target_pathname: &str) -> (r: Result<
        Self,
        KasumiError,
    >)
        requires
            abi.wf(),
        ensures
            target_pathname.spec_bytes().len() >= abi.kstat_pathname_len ==> r is Err,
            target_pathname.spec_bytes().len() < abi.kstat_pathname_len ==> (r matches Ok(k)
                && k.target_ino == target_ino && k.err == 0 && k.target_pathname@ == nul_padded(
                target_pathname.spec_bytes(),
                abi.kstat_pathname_len as nat,
            )),
    {
        let mut value = Self::zeroed(abi);
        value.target_ino = target_ino;
        match value.set_target_pathname(target_pathname) {
            Ok(()) => Ok(value),
            Err(e) => Err(e),
        }
    }

    pub fn set_target_pathname(&mut self, target_pathname: &str) -> (r: Result<(), KasumiError>)
        requires
            old(self).target_pathname@.len() > 0,
        ensures
            final(self).target_ino == old(self).target_ino,
            final(self).err == old(self).err,
            target_pathname.spec_bytes().len() >= old(self).target_pathname@.len() ==> (r matches Err(
                KasumiError::FieldTooLong { field, max },
            ) && field@ == "Kasumi kstat target pathname"@ && max == old(self).target_pathname@.len() - 1 && final(self).target_pathname@ == old(self).target_pathname@),
            target_pathname.spec_bytes().len() < old(self).target_pathname@.len() ==> r is Ok
                && final(self).target_pathname@ == nul_padded(
                target_pathname.spec_bytes(),
                old(self).target_pathname@.len(),
            ),
    {
        write_bytes_into_c_buf(
            &mut self.target_pathname,
            target_pathname.as_bytes(),
            "Kasumi kstat target pathname",
        )
    }
}

/// The names the kernel reports through `uname`.
#[allow(non_camel_case_types)]
#[derive(Debug, Clone)]
pub struct kasumi_spoof_uname {
    pub sysname: Vec<u8>,
    pub nodename: Vec<u8>,
    pub release: Vec<u8>,
    pub version: Vec<u8>,
    pub machine: Vec<u8>,
    pub domainname: Vec<u8>,
    pub err: i32,
}

impl kasumi_spoof_uname {
    pub open spec fn is_zero(&self, n: nat) -> bool {
        &&& self.sysname@ == zeros(n)
        &&& self.nodename@ == zeros(n)
        &&& self.release@ == zeros(n)
        &&& self.version@ == zeros(n)
        &&& self.machine@ == zeros(n)
        &&& self.domainname@ == zeros(n)
        &&& self.err == 0
    }

    /// A record of zeros: every name empty, which restores the real ones.
    pub fn zeroed(abi: &KasumiAbi) -> (u: Self)
        ensures
            u.is_zero(abi.uname_field_len as nat),
    {
        kasumi_spoof_uname {
            sysname: zeroed_buf(abi.uname_field_len),
            nodename: zeroed_buf(abi.uname_field_len),
            release: zeroed_buf(abi.uname_field_len),
            version: zeroed_buf(abi.uname_field_len),
            machine: zeroed_buf(abi.uname_field_len),
            domainname: zeroed_buf(abi.uname_field_len),
            err: 0,
        }
    }

    pub fn set_sysname(&mut self, value: &str) -> (r: Result<(), KasumiError>)
        requires
            old(self).sysname@.len() > 0,
        ensures
            value.spec_bytes().len() < old(self).sysname@.len() ==> r is Ok && final(self).sysname@
                == nul_padded(value.spec_bytes(), old(self).sysname@.len()),
            value.spec_bytes().len() >= old(self).sysname@.len() ==> r is Err && final(self).sysname@
                == old(self).sysname@,
            final(self).nodename@ == old(self).nodename@ && final(self).release@ == old(self).release@ && final(self).version@ == old(self).version@ && final(self).machine@
                == old(self).machine@ && final(self).domainname@ == old(self).domainname@,
    {
        write_bytes_into_c_buf(&mut self.sysname, value.as_bytes(), "Kasumi uname sysname")
    }

    pub fn set_nodename(&mut self, value: &str) -> (r: Result<(), KasumiError>)
        requires
            old(self).nodename@.len() > 0,
        ensures
            value.spec_bytes().len() < old(self).nodename@.len() ==> r is Ok
                && final(self).nodename@ == nul_padded(value.spec_bytes(), old(self).nodename@.len()),
            value.spec_bytes().len() >= old(self).nodename@.len() ==> r is Err
                && final(self).nodename@ == old(self).nodename@,
            final(self).sysname@ == old(self).sysname@ && final(self).release@ == old(self).release@ && final(self).version@ == old(self).version@ && final(self).machine@
                == old(self).machine@ && final(self).domainname@ == old(self).domainname@,
    {
        write_bytes_into_c_buf(&mut self.nodename, value.as_bytes(), "Kasumi uname nodename")
    }

    pub fn set_release(&mut self, value: &str) -> (r: Result<(), KasumiError>)
        requires
            old(self).release@.len() > 0,
        ensures
            value.spec_bytes().len() < old(self).release@.len() ==> r is Ok && final(self).release@
                == nul_padded(value.spec_bytes(), old(self).release@.len()),
            value.spec_bytes().len() >= old(self).release@.len() ==> r is Err && final(self).release@
                == old(self).release@,
            final(self).sysname@ == old(self).sysname@ && final(self).nodename@ == old(self).nodename@ && final(self).version@ == old(self).version@ && final(self).machine@
                == old(self).machine@ && final(self).domainname@ == old(self).domainname@,
    {
        write_bytes_into_c_buf(&mut self.release, value.as_bytes(), "Kasumi uname release")
    }

    pub fn set_version(&mut self, value: &str) -> (r: Result<(), KasumiError>)
        requires
            old(self).version@.len() > 0,
        ensures
            value.spec_bytes().len() < old(self).version@.len() ==> r is Ok && final(self).version@
                == nul_padded(value.spec_bytes(), old(self).version@.len()),
            value.spec_bytes().len() >= old(self).version@.len() ==> r is Err && final(self).version@
                == old(self).version@,
            final(self).sysname@ == old(self).sysname@ && final(self).nodename@ == old(self).nodename@ && final(self).release@ == old(self).release@ && final(self).machine@
                == old(self).machine@ && final(self).domainname@ == old(self).domainname@,
    {
        write_bytes_into_c_buf(&mut self.version, value.as_bytes(), "Kasumi uname version")
    }

    pub fn set_machine(&mut self, value: &str) -> (r: Result<(), KasumiError>)
        requires
            old(self).machine@.len() > 0,
        ensures
            value.spec_bytes().len() < old(self).machine@.len() ==> r is Ok && final(self).machine@
                == nul_padded(value.spec_bytes(), old(self).machine@.len()),
            value.spec_bytes().len() >= old(self).machine@.len() ==> r is Err && final(self).machine@
                == old(self).machine@,
            final(self).sysname@ == old(self).sysname@ && final(self).nodename@ == old(self).nodename@ && final(self).release@ == old(self).release@ && final(self).version@
                == old(self).version@ && final(self).domainname@ == old(self).domainname@,
    {
        write_bytes_into_c_buf(&mut self.machine, value.as_bytes(), "Kasumi uname machine")
    }

    pub fn set_domainname(&mut self, value: &str) -> (r: Result<(), KasumiError>)
        requires
            old(self).domainname@.len() > 0,
        ensures
            value.spec_bytes().len() < old(self).domainname@.len() ==> r is Ok
                && final(self).domainname@ == nul_padded(
                value.spec_bytes(),
                old(self).domainname@.len(),
            ),
            value.spec_bytes().len() >= old(self).domainname@.len() ==> r is Err
                && final(self).domainname@ == old(self).domainname@,
            final(self).sysname@ == old(self).sysname@ && final(self).nodename@ == old(self).nodename@ && final(self).release@ == old(self).release@ && final(self).version@
                == old(self).version@ && final(self).machine@ == old(self).machine@,
    {
        write_bytes_into_c_buf(&mut self.domainname, value.as_bytes(), "Kasumi uname domainname")
    }
}

/// The kernel command line shown to processes.
#[allow(non_camel_case_types)]
#[derive(Debug, Clone)]
pub struct kasumi_spoof_cmdline {
    pub cmdline: Vec<u8>,
    pub err: i32,
}

impl kasumi_spoof_cmdline {
    pub fn new(abi: &KasumiAbi, cmdline: &str) -> (r: Result<Self, KasumiError>)
        requires
            abi.wf(),
        ensures
            cmdline.spec_bytes().len() >= abi.cmdline_len ==> (r matches Err(
                KasumiError::FieldTooLong { field, max },
            ) && field@ == "Kasumi cmdline"@ && max == abi.cmdline_len - 1),
            cmdline.spec_bytes().len() < abi.cmdline_len ==> (r matches Ok(c) && c.err == 0
                && c.cmdline@ == nul_padded(cmdline.spec_bytes(), abi.cmdline_len as nat)),
    {
        let mut value = kasumi_spoof_cmdline { cmdline: zeroed_buf(abi.cmdline_len), err: 0 };
        match value.set_cmdline(cmdline) {
            Ok(()) => Ok(value),
            Err(e) => Err(e),
        }
    }

    pub fn set_cmdline(&mut self, cmdline: &str) -> (r: Result<(), KasumiError>)
        requires
            old(self).cmdline@.len() > 0,
        ensures
            final(self).err == old(self).err,
            cmdline.spec_bytes().len() >= old(self).cmdline@.len() ==> (r matches Err(
                KasumiError::FieldTooLong { field, max },
            ) && field@ == "Kasumi cmdline"@ && max == old(self).cmdline@.len() - 1 && final(self).cmdline@ == old(self).cmdline@),
            cmdline.spec_bytes().len() < old(self).cmdline@.len() ==> r is Ok && final(self).cmdline@
                == nul_padded(cmdline.spec_bytes(), old(self).cmdline@.len()),
            final(self).cmdline@ == spec_write_c_buf(old(self).cmdline@, cmdline.spec_bytes()),
    {
        write_bytes_into_c_buf(&mut self.cmdline, cmdline.as_bytes(), "Kasumi cmdline")
    }
}

/// A request to show another file in memory maps.
#[allow(non_camel_case_types)]
#[derive(Debug, Clone)]
pub struct kasumi_maps_rule {
    pub target_ino: u64,
    pub target_dev: u64,
    pub spoofed_ino: u64,
    pub spoofed_dev: u64,
    pub spoofed_pathname: Vec<u8>,
    pub err: i32,
}

impl kasumi_maps_rule {
    pub fn new(
        abi: &KasumiAbi,
        target_ino: u64,
        target_dev: u64,
        spoofed_ino: u64,
        spoofed_dev: u64,
        spoofed_pathname: &str,
    ) -> (r: Result<Self, KasumiError>)
        requires
            abi.wf(),
        ensures
            spoofed_pathname.spec_bytes().len() >= abi.maps_pathname_len ==> r is Err,
            spoofed_pathname.spec_bytes().len() < abi.maps_pathname_len ==> (r matches Ok(m)
                && m.target_ino == target_ino && m.target_dev == target_dev && m.spoofed_ino
                == spoofed_ino && m.spoofed_dev == spoofed_dev && m.err == 0 && m.spoofed_pathname@
                == nul_padded(spoofed_pathname.spec_bytes(), abi.maps_pathname_len as nat)),
    {
        let mut value = kasumi_maps_rule {
            target_ino,
            target_dev,
            spoofed_ino,
            spoofed_dev,
            spoofed_pathname: zeroed_buf(abi.maps_pathname_len),
            err: 0,
        };
        match value.set_spoofed_pathname(spoofed_pathname) {
            Ok(()) => Ok(value),
            Err(e) => Err(e),
        }
    }

    pub fn set_spoofed_pathname(&mut self, spoofed_pathname: &str) -> (r: Result<(), KasumiError>)
        requires
            old(self).spoofed_pathname@.len() > 0,
        ensures
            final(self).target_ino == old(self).target_ino && final(self).target_dev == old(self).target_dev && final(self).spoofed_ino == old(self).spoofed_ino && final(self).spoofed_dev == old(self).spoofed_dev && final(self).err == old(self).err,
            spoofed_pathname.spec_bytes().len() >= old(self).spoofed_pathname@.len() ==> (r matches Err(
                KasumiError::FieldTooLong { field, max },
            ) && field@ == "Kasumi maps spoofed pathname"@ && max == old(self).spoofed_pathname@.len() - 1 && final(self).spoofed_pathname@ == old(self).spoofed_pathname@),
            spoofed_pathname.spec_bytes().len() < old(self).spoofed_pathname@.len() ==> r is Ok
                && final(self).spoofed_pathname@ == nul_padded(
                spoofed_pathname.spec_bytes(),
                old(self).spoofed_pathname@.len(),
            ),
    {
        write_bytes_into_c_buf(
            &mut self.spoofed_pathname,
            spoofed_pathname.as_bytes(),
            "Kasumi maps spoofed pathname",
        )
    }
}

/// Whether mounts are hidden, and which ones.
#[allow(non_camel_case_types)]
#[derive(Debug, Clone)]
pub struct kasumi_mount_hide_arg {
    pub enable: i32,
    pub path_pattern: Vec<u8>,
    pub err: i32,
}

pub open spec fn flag(enable: bool) -> i32 {
    if enable {
        1
    } else {
        0
    }
}

impl kasumi_mount_hide_arg {
    pub fn new(abi: &KasumiAbi, enable: bool, path_pattern: Option<&str>) -> (r: Result<
        Self,
        KasumiError,
    >)
        requires
            abi.wf(),
        ensures
            match path_pattern {
                Some(p) => if p.spec_bytes().len() >= abi.mount_hide_pattern_len {
                    (r matches Err(KasumiError::FieldTooLong { field, max }) && field@
                        == "Kasumi mount_hide path_pattern"@ && max == abi.mount_hide_pattern_len - 1)
                } else {
                    (r matches Ok(a) && a.enable == flag(enable) && a.err == 0 && a.path_pattern@
                        == nul_padded(p.spec_bytes(), abi.mount_hide_pattern_len as nat))
                },
                None => (r matches Ok(a) && a.enable == flag(enable) && a.err == 0 && a.path_pattern@
                    == zeros(abi.mount_hide_pattern_len as nat)),
            },
    {
        let mut value = kasumi_mount_hide_arg {
            enable: if enable {
                1
            } else {
                0
            },
            path_pattern: zeroed_buf(abi.mount_hide_pattern_len),
            err: 0,
        };
        if let Some(p) = path_pattern {
            match value.set_path_pattern(p) {
                Ok(()) => {},
                Err(e) => {
                    return Err(e);
                },
            }
        }
        Ok(value)
    }

    pub fn set_path_pattern(&mut self, path_pattern: &str) -> (r: Result<(), KasumiError>)
        requires
            old(self).path_pattern@.len() > 0,
        ensures
            final(self).enable == old(self).enable && final(self).err == old(self).err,
            path_pattern.spec_bytes().len() >= old(self).path_pattern@.len() ==> (r matches Err(
                KasumiError::FieldTooLong { field, max },
            ) && field@ == "Kasumi mount_hide path_pattern"@ && max == old(self).path_pattern@.len()
                - 1 && final(self).path_pattern@ == old(self).path_pattern@),
            path_pattern.spec_bytes().len() < old(self).path_pattern@.len() ==> r is Ok
                && final(self).path_pattern@ == nul_padded(
                path_pattern.spec_bytes(),
                old(self).path_pattern@.len(),
            ),
    {
        write_bytes_into_c_buf(
            &mut self.path_pattern,
            path_pattern.as_bytes(),
            "Kasumi mount_hide path_pattern",
        )
    }
}

/// Whether memory maps are spoofed.
#[allow(non_camel_case_types)]
#[derive(Debug, Clone, Copy)]
pub struct kasumi_maps_spoof_arg {
    pub enable: i32,
    pub err: i32,
}

impl kasumi_maps_spoof_arg {
    pub fn new(enable: bool) -> (a: Self)
        ensures
            a.enable == flag(enable),
            a.err == 0,
    {
        kasumi_maps_spoof_arg {
            enable: if enable {
                1
            } else {
                0
            },
            err: 0,
        }
    }
}

/// Whether `statfs` results are spoofed, for which path and with which
/// file-system type.
#[allow(non_camel_case_types)]
#[derive(Debug, Clone)]
pub struct kasumi_statfs_spoof_arg {
    pub enable: i32,
    pub path: Vec<u8>,
    pub spoof_f_type: u64,
    pub err: i32,
}

impl kasumi_statfs_spoof_arg {
    pub fn new(abi: &KasumiAbi, enable: bool) -> (a: Self)
        ensures
            a.enable == flag(enable),
            a.path@ == zeros(abi.statfs_path_len as nat),
            a.spoof_f_type == 0,
            a.err == 0,
    {
        kasumi_statfs_spoof_arg {
            enable: if enable {
                1
            } else {
                0
            },
            path: zeroed_buf(abi.statfs_path_len),
            spoof_f_type: 0,
            err: 0,
        }
    }

    pub fn with_path_and_f_type(abi: &KasumiAbi, enable: bool, path: &str, spoof_f_type: u64) -> (r:
        Result<Self, KasumiError>)
        requires
            abi.wf(),
        ensures
            path.spec_bytes().len() >= abi.statfs_path_len ==> r is Err,
            path.spec_bytes().len() < abi.statfs_path_len ==> (r matches Ok(a) && a.enable == flag(
                enable,
            ) && a.path@ == nul_padded(path.spec_bytes(), abi.statfs_path_len as nat)
                && a.spoof_f_type == spoof_f_type && a.err == 0),
    {
        let mut value = Self::new(abi, enable);
        match value.set_path(path) {
            Ok(()) => {},
            Err(e) => {
                return Err(e);
            },
        }
        value.set_spoof_f_type(spoof_f_type);
        Ok(value)
    }

    pub fn set_path(&mut self, path: &str) -> (r: Result<(), KasumiError>)
        requires
            old(self).path@.len() > 0,
        ensures
            final(self).enable == old(self).enable && final(self).spoof_f_type == old(self).spoof_f_type && final(self).err == old(self).err,
            path.spec_bytes().len() >= old(self).path@.len() ==> (r matches Err(
                KasumiError::FieldTooLong { field, max },
            ) && field@ == "Kasumi statfs path"@ && max == old(self).path@.len() - 1 && final(self).path@ == old(self).path@),
            path.spec_bytes().len() < old(self).path@.len() ==> r is Ok && final(self).path@
                == nul_padded(path.spec_bytes(), old(self).path@.len()),
    {
        write_bytes_into_c_buf(&mut self.path, path.as_bytes(), "Kasumi statfs path")
    }

    pub fn set_spoof_f_type(&mut self, spoof_f_type: u64)
        ensures
            final(self).spoof_f_type == spoof_f_type,
            final(self).enable == old(self).enable,
            final(self).path@ == old(self).path@,
            final(self).err == old(self).err,
    {
        self.spoof_f_type = spoof_f_type;
    }
}


/// One request to the Kasumi kernel module, with its payload.
#[derive(Debug, Clone)]
pub enum KasumiRequest {
    ClearAll,
    AddRule { virtual_path: String, backing_path: String, file_type: i32 },
    AddMergeRule { virtual_path: String, backing_path: String },
    DeleteRule { path: String },
    HideRule { path: String },
    SetMirrorPath { path: String },
    HideOverlayXattrs { path: String },
    SetDebug { value: i32 },
    SetStealth { value: i32 },
    SetEnabled { value: i32 },
    SelinuxFix { value: i32 },
    AddSpoofKstat(kasumi_spoof_kstat),
    UpdateSpoofKstat(kasumi_spoof_kstat),
    SetUname(kasumi_spoof_uname),
    SetUnameGlobal(kasumi_spoof_uname),
    SetCmdline(kasumi_spoof_cmdline),
    SetHideUids(kasumi_uid_list_arg),
    ReorderMntId,
    GetVersion,
    GetFeatures,
    ListRules { capacity: usize },
    GetHooks { capacity: usize },
    AddMapsRule(kasumi_maps_rule),
    ClearMapsRules,
    SetMountHide(kasumi_mount_hide_arg),
    SetMapsSpoof(kasumi_maps_spoof_arg),
    SetStatfsSpoof(kasumi_statfs_spoof_arg),
}

/// A request, the name under which its failure is reported, and, for the
/// requests whose record carries an error code back, the text that
/// introduces a non-zero code.
#[derive(Debug, Clone)]
pub struct KasumiCall {
    pub name: &'static str,
    pub request: KasumiRequest,
    pub err_context: Option<&'static str>,
}

pub open spec fn plain_call(c: KasumiCall, name: Seq<char>) -> bool {
    c.name@ == name && c.err_context is None
}

pub open spec fn checked_call(c: KasumiCall, name: Seq<char>, context: Seq<char>) -> bool {
    c.name@ == name && (c.err_context matches Some(x) && x@ == context)
}

/// Removes every rule.
pub fn clear_rules() -> (c: KasumiCall)
    ensures
        plain_call(c, "clear_rules"@),
        c.request is ClearAll,
{
    KasumiCall { name: "clear_rules", request: KasumiRequest::ClearAll, err_context: None }
}

/// The first of two paths that holds a NUL byte, if any.
pub open spec fn first_nul(a: &str, b: &str) -> Option<Seq<char>> {
    if has_nul(a) {
        Some(a@)
    } else if has_nul(b) {
        Some(b@)
    } else {
        None
    }
}

/// Routes `virtual_path` to the file `backing_path` of type `file_type`.
pub fn add_rule(virtual_path: &str, backing_path: &str, file_type: i32) -> (r: Result<
    KasumiCall,
    KasumiError,
>)
    ensures
        first_nul(virtual_path, backing_path) matches Some(p) ==> (r matches Err(
            KasumiError::InteriorNul { path },
        ) && path@ == p),
        first_nul(virtual_path, backing_path) is None ==> (r matches Ok(c) && plain_call(
            c,
            "add_rule"@,
        ) && (c.request matches KasumiRequest::AddRule { virtual_path: v, backing_path: b, file_type: t }
            && v@ == virtual_path@ && b@ == backing_path@ && t == file_type)),
{
    let src = match cstring_from_path(virtual_path) {
        Ok(s) => s,
        Err(e) => {
            return Err(e);
        },
    };
    let target = match cstring_from_path(backing_path) {
        Ok(s) => s,
        Err(e) => {
            return Err(e);
        },
    };
    Ok(
        KasumiCall {
            name: "add_rule",
            request: KasumiRequest::AddRule { virtual_path: src, backing_path: target, file_type },
            err_context: None,
        },
    )
}

/// Merges the directory `backing_path` into `virtual_path`.
pub fn add_merge_rule(virtual_path: &str, backing_path: &str) -> (r: Result<
    KasumiCall,
    KasumiError,
>)
    ensures
        first_nul(virtual_path, backing_path) matches Some(p) ==> (r matches Err(
            KasumiError::InteriorNul { path },
        ) && path@ == p),
        first_nul(virtual_path, backing_path) is None ==> (r matches Ok(c) && plain_call(
            c,
            "add_merge_rule"@,
        ) && (c.request matches KasumiRequest::AddMergeRule { virtual_path: v, backing_path: b }
            && v@ == virtual_path@ && b@ == backing_path@)),
{
    let src = match cstring_from_path(virtual_path) {
        Ok(s) => s,
        Err(e) => {
            return Err(e);
        },
    };
    let target = match cstring_from_path(backing_path) {
        Ok(s) => s,
        Err(e) => {
            return Err(e);
        },
    };
    Ok(
        KasumiCall {
            name: "add_merge_rule",
            request: KasumiRequest::AddMergeRule { virtual_path: src, backing_path: target },
            err_context: None,
        },
    )
}

/// The request of a one-path call, refused when the path holds a NUL byte.
pub open spec fn path_call(
    r: Result<KasumiCall, KasumiError>,
    path: &str,
    name: Seq<char>,
    req: spec_fn(KasumiRequest) -> bool,
) -> bool {
    &&& has_nul(path) ==> (r matches Err(KasumiError::InteriorNul { path: p }) && p@ == path@)
    &&& !has_nul(path) ==> (r matches Ok(c) && plain_call(c, name) && req(c.request))
}

/// Removes the rule of `virtual_path`.
pub fn delete_rule(virtual_path: &str) -> (r: Result<KasumiCall, KasumiError>)
    ensures
        path_call(
            r,
            virtual_path,
            "delete_rule"@,
            |q: KasumiRequest| q matches KasumiRequest::DeleteRule { path } && path@ == virtual_path@,
        ),
{
    match cstring_from_path(virtual_path) {
        Ok(p) => Ok(
            KasumiCall {
                name: "delete_rule",
                request: KasumiRequest::DeleteRule { path: p },
                err_context: None,
            },
        ),
        Err(e) => Err(e),
    }
}

/// Hides `virtual_path`.
pub fn hide_path(virtual_path: &str) -> (r: Result<KasumiCall, KasumiError>)
    ensures
        path_call(
            r,
            virtual_path,
            "hide_path"@,
            |q: KasumiRequest| q matches KasumiRequest::HideRule { path } && path@ == virtual_path@,
        ),
{
    match cstring_from_path(virtual_path) {
        Ok(p) => Ok(
            KasumiCall {
                name: "hide_path",
                request: KasumiRequest::HideRule { path: p },
                err_context: None,
            },
        ),
        Err(e) => Err(e),
    }
}

/// Sets the directory that mirrors module content.
pub fn set_mirror_path(path: &str) -> (r: Result<KasumiCall, KasumiError>)
    ensures
        path_call(
            r,
            path,
            "set_mirror_path"@,
            |q: KasumiRequest| q matches KasumiRequest::SetMirrorPath { path: p } && p@ == path@,
        ),
{
    match cstring_from_path(path) {
        Ok(p) => Ok(
            KasumiCall {
                name: "set_mirror_path",
                request: KasumiRequest::SetMirrorPath { path: p },
                err_context: None,
            },
        ),
        Err(e) => Err(e),
    }
}

/// Hides the overlay extended attributes under `path`.
pub fn hide_overlay_xattrs(path: &str) -> (r: Result<KasumiCall, KasumiError>)
    ensures
        path_call(
            r,
            path,
            "hide_overlay_xattrs"@,
            |q: KasumiRequest| q matches KasumiRequest::HideOverlayXattrs { path: p } && p@ == path@,
        ),
{
    match cstring_from_path(path) {
        Ok(p) => Ok(
            KasumiCall {
                name: "hide_overlay_xattrs",
                request: KasumiRequest::HideOverlayXattrs { path: p },
                err_context: None,
            },
        ),
        Err(e) => Err(e),
    }
}

pub fn set_debug(enable: bool) -> (c: KasumiCall)
    ensures
        plain_call(c, "set_debug"@),
        c.request matches KasumiRequest::SetDebug { value } && value == flag(enable),
{
    KasumiCall {
        name: "set_debug",
        request: KasumiRequest::SetDebug {
            value: if enable {
                1
            } else {
                0
            },
        },
        err_context: None,
    }
}

pub fn set_stealth(enable: bool) -> (c: KasumiCall)
    ensures
        plain_call(c, "set_stealth"@),
        c.request matches KasumiRequest::SetStealth { value } && value == flag(enable),
{
    KasumiCall {
        name: "set_stealth",
        request: KasumiRequest::SetStealth {
            value: if enable {
                1
            } else {
                0
            },
        },
        err_context: None,
    }
}

pub fn set_enabled(enable: bool) -> (c: KasumiCall)
    ensures
        plain_call(c, "set_enabled"@),
        c.request matches KasumiRequest::SetEnabled { value } && value == flag(enable),
{
    KasumiCall {
        name: "set_enabled",
        request: KasumiRequest::SetEnabled {
            value: if enable {
                1
            } else {
                0
            },
        },
        err_context: None,
    }
}

pub fn set_selinux_fix(enable: bool) -> (c: KasumiCall)
    ensures
        plain_call(c, "selinux_fix"@),
        c.request matches KasumiRequest::SelinuxFix { value } && value == flag(enable),
{
    KasumiCall {
        name: "selinux_fix",
        request: KasumiRequest::SelinuxFix {
            value: if enable {
                1
            } else {
                0
            },
        },
        err_context: None,
    }
}

pub fn add_spoof_kstat(rule: &kasumi_spoof_kstat) -> (c: KasumiCall)
    ensures
        checked_call(c, "add_spoof_kstat"@, "Kasumi add_spoof_kstat"@),
        c.request matches KasumiRequest::AddSpoofKstat(k) && k.target_ino == rule.target_ino
            && k.target_pathname@ == rule.target_pathname@ && k.err == rule.err,
{
    KasumiCall {
        name: "add_spoof_kstat",
        request: KasumiRequest::AddSpoofKstat(
            kasumi_spoof_kstat {
                target_ino: rule.target_ino,
                target_pathname: rule.target_pathname.clone(),
                err: rule.err,
            },
        ),
        err_context: Some("Kasumi add_spoof_kstat"),
    }
}

pub fn update_spoof_kstat(rule: &kasumi_spoof_kstat) -> (c: KasumiCall)
    ensures
        checked_call(c, "update_spoof_kstat"@, "Kasumi update_spoof_kstat"@),
        c.request matches KasumiRequest::UpdateSpoofKstat(k) && k.target_ino == rule.target_ino
            && k.target_pathname@ == rule.target_pathname@ && k.err == rule.err,
{
    KasumiCall {
        name: "update_spoof_kstat",
        request: KasumiRequest::UpdateSpoofKstat(
            kasumi_spoof_kstat {
                target_ino: rule.target_ino,
                target_pathname: rule.target_pathname.clone(),
                err: rule.err,
            },
        ),
        err_context: Some("Kasumi update_spoof_kstat"),
    }
}

pub open spec fn same_uname(a: kasumi_spoof_uname, b: kasumi_spoof_uname) -> bool {
    &&& a.sysname@ == b.sysname@
    &&& a.nodename@ == b.nodename@
    &&& a.release@ == b.release@
    &&& a.version@ == b.version@
    &&& a.machine@ == b.machine@
    &&& a.domainname@ == b.domainname@
    &&& a.err == b.err
}

fn copy_uname(u: &kasumi_spoof_uname) -> (c: kasumi_spoof_uname)
    ensures
        same_uname(c, *u),
{
    kasumi_spoof_uname {
        sysname: u.sysname.clone(),
        nodename: u.nodename.clone(),
        release: u.release.clone(),
        version: u.version.clone(),
        machine: u.machine.clone(),
        domainname: u.domainname.clone(),
        err: u.err,
    }
}

pub fn set_uname(uname: &kasumi_spoof_uname) -> (c: KasumiCall)
    ensures
        checked_call(c, "set_uname"@, "Kasumi set_uname"@),
        c.request matches KasumiRequest::SetUname(u) && same_uname(u, *uname),
{
    KasumiCall {
        name: "set_uname",
        request: KasumiRequest::SetUname(copy_uname(uname)),
        err_context: Some("Kasumi set_uname"),
    }
}

pub fn set_uname_global(uname: &kasumi_spoof_uname) -> (c: KasumiCall)
    ensures
        checked_call(c, "set_uname_global"@, "Kasumi set_uname_global"@),
        c.request matches KasumiRequest::SetUnameGlobal(u) && same_uname(u, *uname),
{
    KasumiCall {
        name: "set_uname_global",
        request: KasumiRequest::SetUnameGlobal(copy_uname(uname)),
        err_context: Some("Kasumi set_uname_global"),
    }
}

/// Gives back the real `uname` names everywhere: a global setting of
/// empty names.
pub fn restore_uname_global(abi: &KasumiAbi) -> (c: KasumiCall)
    ensures
        checked_call(c, "set_uname_global"@, "Kasumi set_uname_global"@),
        c.request matches KasumiRequest::SetUnameGlobal(u) && u.is_zero(abi.uname_field_len as nat),
{
    let uname = kasumi_spoof_uname::zeroed(abi);
    set_uname_global(&uname)
}

pub fn set_cmdline(cmdline: &kasumi_spoof_cmdline) -> (c: KasumiCall)
    ensures
        checked_call(c, "set_cmdline"@, "Kasumi set_cmdline"@),
        c.request matches KasumiRequest::SetCmdline(k) && k.cmdline@ == cmdline.cmdline@ && k.err
            == cmdline.err,
{
    KasumiCall {
        name: "set_cmdline",
        request: KasumiRequest::SetCmdline(
            kasumi_spoof_cmdline { cmdline: cmdline.cmdline.clone(), err: cmdline.err },
        ),
        err_context: Some("Kasumi set_cmdline"),
    }
}

/// Sets the command line shown to processes from text.
pub fn set_cmdline_str(abi: &KasumiAbi, cmdline: &str) -> (r: Result<KasumiCall, KasumiError>)
    requires
        abi.wf(),
    ensures
        cmdline.spec_bytes().len() >= abi.cmdline_len ==> (r matches Err(
            KasumiError::FieldTooLong { field, max },
        ) && field@ == "Kasumi cmdline"@ && max == abi.cmdline_len - 1),
        cmdline.spec_bytes().len() < abi.cmdline_len ==> (r matches Ok(c) && checked_call(
            c,
            "set_cmdline"@,
            "Kasumi set_cmdline"@,
        ) && (c.request matches KasumiRequest::SetCmdline(k) && k.cmdline@ == nul_padded(
            cmdline.spec_bytes(),
            abi.cmdline_len as nat,
        ) && k.err == 0)),
{
    match kasumi_spoof_cmdline::new(abi, cmdline) {
        Ok(c) => Ok(set_cmdline(&c)),
        Err(e) => Err(e),
    }
}

pub fn set_hide_uids(uids: &[u32]) -> (c: KasumiCall)
    ensures
        plain_call(c, "set_hide_uids"@),
        c.request matches KasumiRequest::SetHideUids(a) && a.uids@ == uids@ && a.count == uids@.len() as u32
            && a.reserved == 0,
{
    KasumiCall {
        name: "set_hide_uids",
        request: KasumiRequest::SetHideUids(kasumi_uid_list_arg::from_slice(uids)),
        err_context: None,
    }
}

/// Reorders mount ids so that added mounts do not stand out.
pub fn fix_mounts() -> (c: KasumiCall)
    ensures
        plain_call(c, "fix_mounts"@),
        c.request is ReorderMntId,
{
    KasumiCall { name: "fix_mounts", request: KasumiRequest::ReorderMntId, err_context: None }
}

/// Asks the protocol version of the kernel module.
pub fn get_protocol_version() -> (c: KasumiCall)
    ensures
        plain_call(c, "get_version"@),
        c.request is GetVersion,
{
    KasumiCall { name: "get_version", request: KasumiRequest::GetVersion, err_context: None }
}

/// Asks the feature bits of the kernel module.
pub fn get_features() -> (c: KasumiCall)
    ensures
        plain_call(c, "get_features"@),
        c.request is GetFeatures,
{
    KasumiCall { name: "get_features", request: KasumiRequest::GetFeatures, err_context: None }
}

/// Asks the rule listing, into a buffer of 16 KiB.
pub fn list_rules() -> (c: KasumiCall)
    ensures
        plain_call(c, "rule list"@),
        c.request matches KasumiRequest::ListRules { capacity } && capacity == 16 * 1024,
{
    KasumiCall {
        name: "rule list",
        request: KasumiRequest::ListRules { capacity: 16 * 1024 },
        err_context: None,
    }
}

/// Asks the hook listing, into a buffer of 4 KiB.
pub fn get_hooks() -> (c: KasumiCall)
    ensures
        plain_call(c, "hook list"@),
        c.request matches KasumiRequest::GetHooks { capacity } && capacity == 4 * 1024,
{
    KasumiCall {
        name: "hook list",
        request: KasumiRequest::GetHooks { capacity: 4 * 1024 },
        err_context: None,
    }
}

pub fn add_maps_rule(rule: &kasumi_maps_rule) -> (c: KasumiCall)
    ensures
        checked_call(c, "add_maps_rule"@, "Kasumi add_maps_rule"@),
        c.request matches KasumiRequest::AddMapsRule(m) && m.target_ino == rule.target_ino
            && m.target_dev == rule.target_dev && m.spoofed_ino == rule.spoofed_ino
            && m.spoofed_dev == rule.spoofed_dev && m.spoofed_pathname@ == rule.spoofed_pathname@
            && m.err == rule.err,
{
    KasumiCall {
        name: "add_maps_rule",
        request: KasumiRequest::AddMapsRule(
            kasumi_maps_rule {
                target_ino: rule.target_ino,
                target_dev: rule.target_dev,
                spoofed_ino: rule.spoofed_ino,
                spoofed_dev: rule.spoofed_dev,
                spoofed_pathname: rule.spoofed_pathname.clone(),
                err: rule.err,
            },
        ),
        err_context: Some("Kasumi add_maps_rule"),
    }
}

pub fn clear_maps_rules() -> (c: KasumiCall)
    ensures
        plain_call(c, "clear_maps_rules"@),
        c.request is ClearMapsRules,
{
    KasumiCall {
        name: "clear_maps_rules",
        request: KasumiRequest::ClearMapsRules,
        err_context: None,
    }
}

pub fn set_mount_hide_config(config: &kasumi_mount_hide_arg) -> (c: KasumiCall)
    ensures
        checked_call(c, "set_mount_hide"@, "Kasumi mount_hide"@),
        c.request matches KasumiRequest::SetMountHide(a) && a.enable == config.enable
            && a.path_pattern@ == config.path_pattern@ && a.err == config.err,
{
    KasumiCall {
        name: "set_mount_hide",
        request: KasumiRequest::SetMountHide(
            kasumi_mount_hide_arg {
                enable: config.enable,
                path_pattern: config.path_pattern.clone(),
                err: config.err,
            },
        ),
        err_context: Some("Kasumi mount_hide"),
    }
}

/// Turns mount hiding on or off, for every path.
pub fn set_mount_hide(abi: &KasumiAbi, enable: bool) -> (c: KasumiCall)
    requires
        abi.wf(),
    ensures
        checked_call(c, "set_mount_hide"@, "Kasumi mount_hide"@),
        c.request matches KasumiRequest::SetMountHide(a) && a.enable == flag(enable)
            && a.path_pattern@ == zeros(abi.mount_hide_pattern_len as nat) && a.err == 0,
{
    let config = kasumi_mount_hide_arg {
        enable: if enable {
            1
        } else {
            0
        },
        path_pattern: zeroed_buf(abi.mount_hide_pattern_len),
        err: 0,
    };
    set_mount_hide_config(&config)
}

pub fn set_maps_spoof_config(config: &kasumi_maps_spoof_arg) -> (c: KasumiCall)
    ensures
        checked_call(c, "set_maps_spoof"@, "Kasumi maps_spoof"@),
        c.request matches KasumiRequest::SetMapsSpoof(a) && a == *config,
{
    KasumiCall {
        name: "set_maps_spoof",
        request: KasumiRequest::SetMapsSpoof(*config),
        err_context: Some("Kasumi maps_spoof"),
    }
}

pub fn set_maps_spoof(enable: bool) -> (c: KasumiCall)
    ensures
        checked_call(c, "set_maps_spoof"@, "Kasumi maps_spoof"@),
        c.request matches KasumiRequest::SetMapsSpoof(a) && a.enable == flag(enable) && a.err == 0,
{
    let config = kasumi_maps_spoof_arg::new(enable);
    set_maps_spoof_config(&config)
}

pub fn set_statfs_spoof_config(config: &kasumi_statfs_spoof_arg) -> (c: KasumiCall)
    ensures
        checked_call(c, "set_statfs_spoof"@, "Kasumi statfs_spoof"@),
        c.request matches KasumiRequest::SetStatfsSpoof(a) && a.enable == config.enable
            && a.path@ == config.path@ && a.spoof_f_type == config.spoof_f_type && a.err
            == config.err,
{
    KasumiCall {
        name: "set_statfs_spoof",
        request: KasumiRequest::SetStatfsSpoof(
            kasumi_statfs_spoof_arg {
                enable: config.enable,
                path: config.path.clone(),
                spoof_f_type: config.spoof_f_type,
                err: config.err,
            },
        ),
        err_context: Some("Kasumi statfs_spoof"),
    }
}

pub fn set_statfs_spoof(abi: &KasumiAbi, enable: bool) -> (c: KasumiCall)
    ensures
        checked_call(c, "set_statfs_spoof"@, "Kasumi statfs_spoof"@),
        c.request matches KasumiRequest::SetStatfsSpoof(a) && a.enable == flag(enable)
            && a.path@ == zeros(abi.statfs_path_len as nat) && a.spoof_f_type == 0 && a.err == 0,
{
    let config = kasumi_statfs_spoof_arg::new(abi, enable);
    set_statfs_spoof_config(&config)
}

/// The error that a non-zero kernel code gives.
pub fn ensure_kernel_err(context: &str, kernel_err: i32) -> (r: Result<(), KasumiError>)
    ensures
        kernel_err == 0 ==> r is Ok,
        kernel_err != 0 ==> (r matches Err(KasumiError::Kernel { context: c, code }) && c@
            == context@ && code == kernel_err),
{
    if kernel_err != 0 {
        return Err(KasumiError::Kernel { context: context.to_owned(), code: kernel_err });
    }
    Ok(())
}

/// What a call came to: the kernel call failed with an error number, or it
/// returned and left this error code in the request record (0 when the
/// record carries none).
#[derive(Debug, Clone, Copy)]
pub enum CallOutcome {
    Failed { errno: i32 },
    Returned { kernel_err: i32 },
}

/// The result of `call` given what the kernel call came to; `opcode` is the
/// request number used.
pub fn complete_call(call: &KasumiCall, opcode: u64, outcome: CallOutcome) -> (r: Result<
    (),
    KasumiError,
>)
    ensures
        outcome matches CallOutcome::Failed { errno } ==> (r matches Err(
            KasumiError::Ioctl { name, opcode: o, errno: e, class },
        ) && name@ == call.name@ && o == opcode && e == errno && class == spec_errno_class(errno)),
        outcome matches CallOutcome::Returned { kernel_err } ==> match call.err_context {
            Some(context) => if kernel_err != 0 {
                (r matches Err(KasumiError::Kernel { context: c, code }) && c@ == context@ && code
                    == kernel_err)
            } else {
                r is Ok
            },
            None => r is Ok,
        },
{
    match outcome {
        CallOutcome::Failed { errno } => Err(
            KasumiError::Ioctl {
                name: call.name.to_owned(),
                opcode,
                errno,
                class: errno_class(errno),
            },
        ),
        CallOutcome::Returned { kernel_err } => match call.err_context {
            Some(context) => ensure_kernel_err(context, kernel_err),
            None => Ok(()),
        },
    }
}


/// What `String::from_utf8_lossy` makes of `bytes`: the text they encode,
/// with a replacement character for each invalid sequence.
pub uninterp spec fn utf8_lossy(bytes: Seq<u8>) -> Seq<char>;

/// `String::from_utf8_lossy`: its result is named `utf8_lossy`, and for
/// valid UTF-8 it is the text the bytes encode.
#[verifier::external_body]
fn decode_utf8_lossy(bytes: &[u8]) -> (s: String)
    ensures
        s@ == utf8_lossy(bytes@),
        vstd::utf8::valid_utf8(bytes@) ==> s@ == vstd::utf8::decode_utf8(bytes@),
{
    String::from_utf8_lossy(bytes).into_owned()
}

/// Index of the first NUL byte of `b`, or its length.
pub open spec fn nul_index(b: Seq<u8>) -> nat
    decreases b.len(),
{
    if b.len() == 0 || b[0] == 0u8 {
        0
    } else {
        1 + nul_index(b.drop_first())
    }
}

/// The text a listing request left in its buffer: up to the first NUL byte
/// (all of it when there is none), decoded with replacement characters.
pub fn list_output(buf: &[u8]) -> (s: String)
    ensures
        s@ == utf8_lossy(buf@.take(nul_index(buf@) as int)),
{
    let mut i: usize = 0;
    assert(buf@.skip(0) =~= buf@);
    while i < buf.len() && buf[i] != 0u8
        invariant
            i <= buf@.len(),
            nul_index(buf@) == i + nul_index(buf@.skip(i as int)),
        decreases buf@.len() - i,
    {
        assert(buf@.skip(i as int).drop_first() =~= buf@.skip(i + 1));
        i = i + 1;
    }
    if i < buf.len() {
        assert(buf@.skip(i as int)[0] == 0u8);
    }
    let mut out: Vec<u8> = Vec::new();
    let mut k: usize = 0;
    while k < i
        invariant
            k <= i <= buf@.len(),
            out@ == buf@.take(k as int),
        decreases i - k,
    {
        out.push(buf[k]);
        assert(out@ =~= buf@.take(k + 1));
        k = k + 1;
    }
    decode_utf8_lossy(out.as_slice())
}

/// What a helper-rule source directory holds at one place.
#[derive(Debug, Clone, Copy, PartialEq, Eq, Structural)]
pub enum HelperKind {
    File,
    Symlink,
    /// A character device with device number 0.
    Whiteout,
    Other,
}

/// A non-directory entry below a helper-rule source, by its path relative
/// to that source.
#[derive(Debug, Clone)]
pub struct HelperEntry {
    pub relative: String,
    pub kind: HelperKind,
}

/// The calls made for a helper-rule source, in order, and the error that
/// stopped them, if any.
#[derive(Debug, Clone)]
pub struct HelperCalls {
    pub calls: Vec<KasumiCall>,
    pub error: Option<KasumiError>,
}

/// The error for entry `e` of a source at `module_dir` mapped onto
/// `target_base`, if it has one; `add` tells rule addition from removal.
pub open spec fn helper_entry_error(
    target_base: Seq<char>,
    module_dir: Seq<char>,
    e: HelperEntry,
    add: bool,
) -> Option<Seq<char>> {
    let path = crate::defs::join_path(module_dir, e.relative@);
    let target = crate::defs::join_path(target_base, e.relative@);
    if e.kind == HelperKind::Other {
        Some(path)
    } else if seq_has_nul(target) {
        Some(target)
    } else if add && e.kind != HelperKind::Whiteout && seq_has_nul(path) {
        Some(path)
    } else {
        None
    }
}

/// The call made for entry `e` when it has no error.
pub open spec fn helper_entry_call(
    c: KasumiCall,
    target_base: Seq<char>,
    module_dir: Seq<char>,
    e: HelperEntry,
    add: bool,
) -> bool {
    let path = crate::defs::join_path(module_dir, e.relative@);
    let target = crate::defs::join_path(target_base, e.relative@);
    if !add {
        plain_call(c, "delete_rule"@) && (c.request matches KasumiRequest::DeleteRule { path: p }
            && p@ == target)
    } else if e.kind == HelperKind::Whiteout {
        plain_call(c, "hide_path"@) && (c.request matches KasumiRequest::HideRule { path: p } && p@
            == target)
    } else {
        plain_call(c, "add_rule"@) && (c.request matches KasumiRequest::AddRule {
            virtual_path: v,
            backing_path: b,
            file_type: t,
        } && v@ == target && b@ == path && t == (if e.kind == HelperKind::File {
            8i32
        } else {
            10i32
        }))
    }
}

fn helper_call(target_base: &str, module_dir: &str, e: &HelperEntry, add: bool) -> (r: Result<
    KasumiCall,
    KasumiError,
>)
    ensures
        match helper_entry_error(target_base@, module_dir@, *e, add) {
            Some(p) => (r matches Err(err) && (match err {
                KasumiError::UnsupportedEntry { path: q } => e.kind == HelperKind::Other && q@ == p,
                KasumiError::InteriorNul { path: q } => e.kind != HelperKind::Other && q@ == p,
                _ => false,
            })),
            None => (r matches Ok(c) && helper_entry_call(c, target_base@, module_dir@, *e, add)),
        },
{
    let path = crate::defs::join_name(module_dir, e.relative.as_str());
    let target = crate::defs::join_name(target_base, e.relative.as_str());
    if e.kind == HelperKind::Other {
        return Err(KasumiError::UnsupportedEntry { path });
    }
    if !add {
        return delete_rule(target.as_str());
    }
    if e.kind == HelperKind::Whiteout {
        let r = hide_path(target.as_str());
        return r;
    }
    let t = if e.kind == HelperKind::File {
        dt_reg()
    } else {
        dt_lnk()
    };
    add_rule(target.as_str(), path.as_str(), t)
}

/// Whether the UTF-8 form of `s` holds a NUL byte.
pub fn has_nul_bytes(s: &str) -> (b: bool)
    ensures
        b == has_nul(s),
{
    match cstring_from_path(s) {
        Ok(_) => false,
        Err(_) => true,
    }
}

/// The calls that map the helper files below `module_dir` onto
/// `target_base`: each file or link becomes a rule, each whiteout hides
/// its path. Calls stop at the first entry that cannot be mapped.
pub fn add_rules_from_directory(
    target_base: &str,
    module_dir: &str,
    module_dir_is_dir: bool,
    entries: &Vec<HelperEntry>,
) -> (r: HelperCalls)
    ensures
        helper_calls_spec(target_base@, module_dir@, module_dir_is_dir, entries@, true, r),
{
    helper_calls(target_base, module_dir, module_dir_is_dir, entries, true)
}

/// The calls that remove the rules `add_rules_from_directory` made.
pub fn remove_rules_from_directory(
    target_base: &str,
    module_dir: &str,
    module_dir_is_dir: bool,
    entries: &Vec<HelperEntry>,
) -> (r: HelperCalls)
    ensures
        helper_calls_spec(target_base@, module_dir@, module_dir_is_dir, entries@, false, r),
{
    helper_calls(target_base, module_dir, module_dir_is_dir, entries, false)
}

/// The calls for the entries before the first one that fails, in order,
/// then that failure.
pub open spec fn helper_calls_spec(
    target_base: Seq<char>,
    module_dir: Seq<char>,
    module_dir_is_dir: bool,
    entries: Seq<HelperEntry>,
    add: bool,
    r: HelperCalls,
) -> bool {
    if !module_dir_is_dir {
        r.calls@.len() == 0 && (r.error matches Some(KasumiError::NotADirectory { path }) && path@
            == module_dir)
    } else {
        &&& r.calls@.len() <= entries.len()
        &&& forall|i: int|
            0 <= i < r.calls@.len() ==> helper_entry_call(
                #[trigger] r.calls@[i],
                target_base,
                module_dir,
                entries[i],
                add,
            )
        &&& r.error is None <==> r.calls@.len() == entries.len()
        &&& r.calls@.len() < entries.len() ==> (r.error matches Some(err) && (match err {
            KasumiError::UnsupportedEntry { path: q } => entries[r.calls@.len() as int].kind
                == HelperKind::Other && q@ == crate::defs::join_path(
                module_dir,
                entries[r.calls@.len() as int].relative@,
            ),
            KasumiError::InteriorNul { .. } => entries[r.calls@.len() as int].kind
                != HelperKind::Other,
            _ => false,
        }))
    }
}

fn helper_calls(
    target_base: &str,
    module_dir: &str,
    module_dir_is_dir: bool,
    entries: &Vec<HelperEntry>,
    add: bool,
) -> (r: HelperCalls)
    ensures
        helper_calls_spec(target_base@, module_dir@, module_dir_is_dir, entries@, add, r),
{
    let mut calls: Vec<KasumiCall> = Vec::new();
    if !module_dir_is_dir {
        return HelperCalls {
            calls,
            error: Some(KasumiError::NotADirectory { path: module_dir.to_owned() }),
        };
    }
    let mut i: usize = 0;
    while i < entries.len()
        invariant
            module_dir_is_dir,
            i <= entries@.len(),
            calls@.len() == i,
            forall|k: int|
                0 <= k < i ==> helper_entry_call(
                    #[trigger] calls@[k],
                    target_base@,
                    module_dir@,
                    entries@[k],
                    add,
                ),
        decreases entries@.len() - i,
    {
        match helper_call(target_base, module_dir, &entries[i], add) {
            Ok(c) => {
                calls.push(c);
            },
            Err(e) => {
                assert(helper_entry_error(target_base@, module_dir@, entries@[i as int], add) is Some);
                assert(match e {
                    KasumiError::UnsupportedEntry { path: q } => entries@[i as int].kind
                        == HelperKind::Other && q@ == crate::defs::join_path(
                        module_dir@,
                        entries@[i as int].relative@,
                    ),
                    KasumiError::InteriorNul { .. } => entries@[i as int].kind != HelperKind::Other,
                    _ => false,
                });
                return HelperCalls { calls, error: Some(e) };
            },
        }
        i = i + 1;
    }
    HelperCalls { calls, error: None }
}


impl KasumiError {
    pub open spec fn spec_message(&self) -> Seq<char> {
        match self {
            KasumiError::InteriorNul { path } => "path contains interior NUL byte: "@ + path@,
            KasumiError::FieldTooLong { field, max } => field@ + " exceeds "@ + crate::text::decimal(
                *max as nat,
            ) + " bytes"@,
            KasumiError::Kernel { context, code } => context@ + " kernel err="@
                + crate::text::signed_decimal(*code as int),
            KasumiError::Ioctl { name, opcode, errno, class } => "Kasumi ioctl failed: name="@
                + name@ + ", opcode=0x"@ + crate::text::hex(*opcode as nat) + ", errno="@
                + crate::text::signed_decimal(*errno as int) + " ("@ + spec_errno_hint(*class)
                + ")"@,
            KasumiError::NotADirectory { path } => "Kasumi helper source is not a directory: "@
                + path@,
            KasumiError::UnsupportedEntry { path } => "unsupported helper entry type for "@ + path@
                + " (expected regular file, symlink, or whiteout)"@,
        }
    }

    /// The text of the error.
    pub fn message(&self) -> (s: String)
        ensures
            s@ == self.spec_message(),
    {
        let mut v: Vec<char> = Vec::new();
        match self {
            KasumiError::InteriorNul { path } => {
                crate::text::append_str(&mut v, "path contains interior NUL byte: ");
                crate::text::append_str(&mut v, path.as_str());
            },
            KasumiError::FieldTooLong { field, max } => {
                crate::text::append_str(&mut v, field.as_str());
                crate::text::append_str(&mut v, " exceeds ");
                let d = crate::text::decimal_chars(*max);
                crate::text::append_chars(&mut v, &d);
                crate::text::append_str(&mut v, " bytes");
            },
            KasumiError::Kernel { context, code } => {
                crate::text::append_str(&mut v, context.as_str());
                crate::text::append_str(&mut v, " kernel err=");
                let d = crate::text::signed_decimal_chars(*code);
                crate::text::append_chars(&mut v, &d);
            },
            KasumiError::Ioctl { name, opcode, errno, class } => {
                crate::text::append_str(&mut v, "Kasumi ioctl failed: name=");
                crate::text::append_str(&mut v, name.as_str());
                crate::text::append_str(&mut v, ", opcode=0x");
                let h = crate::text::hex_chars(*opcode);
                crate::text::append_chars(&mut v, &h);
                crate::text::append_str(&mut v, ", errno=");
                let d = crate::text::signed_decimal_chars(*errno);
                crate::text::append_chars(&mut v, &d);
                crate::text::append_str(&mut v, " (");
                crate::text::append_str(&mut v, errno_hint(*class));
                crate::text::append_str(&mut v, ")");
            },
            KasumiError::NotADirectory { path } => {
                crate::text::append_str(&mut v, "Kasumi helper source is not a directory: ");
                crate::text::append_str(&mut v, path.as_str());
            },
            KasumiError::UnsupportedEntry { path } => {
                crate::text::append_str(&mut v, "unsupported helper entry type for ");
                crate::text::append_str(&mut v, path.as_str());
                crate::text::append_str(
                    &mut v,
                    " (expected regular file, symlink, or whiteout)",
                );
            },
        }
        crate::text::string_from_chars(&v)
    }
}

} // verus!
