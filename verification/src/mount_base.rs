//! The scratch directory under `/mnt` where the module storage is mounted.

use vstd::prelude::*;

use crate::defs::path_exists;
use crate::text::{append_chars, append_str, decimal, decimal_chars, string_from_chars};

verus! {

/// How many random names are tried before falling back to the process id.
pub const MOUNT_NAME_ATTEMPTS: usize = 100;

/// How many random characters follow the `hm_` prefix.
pub const MOUNT_NAME_RANDOM_LEN: usize = 10;

/// An ASCII letter or digit.
pub open spec fn is_ascii_alnum(c: char) -> bool {
    ||| ('a' <= c && c <= 'z')
    ||| ('A' <= c && c <= 'Z')
    ||| ('0' <= c && c <= '9')
}

/// A random ASCII letter or digit (`fastrand::alphanumeric`, which picks
/// from `A-Z`, `a-z` and `0-9`).
#[verifier::external_body]
fn random_alphanumeric() -> (c: char)
    ensures
        is_ascii_alnum(c),
{
    fastrand::alphanumeric()
}

/// The random suffixes that a candidate name may carry.
pub open spec fn is_random_suffix(name: Seq<char>) -> bool {
    &&& name.len() == MOUNT_NAME_RANDOM_LEN
    &&& forall|i: int| 0 <= i < name.len() ==> is_ascii_alnum(#[trigger] name[i])
}

/// The candidate mount directory for a random suffix.
pub open spec fn spec_random_mount_path(suffix: Seq<char>) -> Seq<char> {
    "/mnt/hm_"@ + suffix
}

/// The mount directory used once every random candidate was taken.
pub open spec fn spec_fallback_mount_path(pid: nat) -> Seq<char> {
    "/mnt/hm_mnt_"@ + decimal(pid)
}

/// The candidate mount directory `/mnt/hm_<suffix>`.
pub fn random_mount_path(suffix: &Vec<char>) -> (p: String)
    ensures
        p@ == spec_random_mount_path(suffix@),
{
    let mut v: Vec<char> = Vec::new();
    append_str(&mut v, "/mnt/hm_");
    append_chars(&mut v, suffix.as_slice());
    string_from_chars(&v)
}

/// The fallback mount directory `/mnt/hm_mnt_<pid>`.
pub fn fallback_mount_path(pid: u32) -> (p: String)
    ensures
        p@ == spec_fallback_mount_path(pid as nat),
{
    let mut v: Vec<char> = Vec::new();
    append_str(&mut v, "/mnt/hm_mnt_");
    let digits = decimal_chars(pid as usize);
    append_chars(&mut v, digits.as_slice());
    string_from_chars(&v)
}

fn random_suffix() -> (s: Vec<char>)
    ensures
        is_random_suffix(s@),
{
    let mut s: Vec<char> = Vec::new();
    let mut i: usize = 0;
    while i < MOUNT_NAME_RANDOM_LEN
        invariant
            i <= MOUNT_NAME_RANDOM_LEN,
            s@.len() == i,
            forall|j: int| 0 <= j < i ==> is_ascii_alnum(#[trigger] s@[j]),
        decreases MOUNT_NAME_RANDOM_LEN - i,
    {
        s.push(random_alphanumeric());
        i = i + 1;
    }
    s
}

/// A fresh directory under `/mnt` for the module storage: the first of up
/// to `MOUNT_NAME_ATTEMPTS` random candidates `/mnt/hm_<10 letters or
/// digits>` that does not exist yet, else `/mnt/hm_mnt_<pid>` with `pid`
/// the id of the running process.
pub fn get_mnt(pid: u32) -> (p: String)
    ensures
        (exists|suffix: Seq<char>| is_random_suffix(suffix) && p@ == spec_random_mount_path(suffix))
            || p@ == spec_fallback_mount_path(pid as nat),
{
    let mut attempt: usize = 0;
    while attempt < MOUNT_NAME_ATTEMPTS
        invariant
            attempt <= MOUNT_NAME_ATTEMPTS,
        decreases MOUNT_NAME_ATTEMPTS - attempt,
    {
        let suffix = random_suffix();
        let p = random_mount_path(&suffix);
        if !path_exists(p.as_str()) {
            return p;
        }
        attempt = attempt + 1;
    }
    fallback_mount_path(pid)
}

} // verus!
