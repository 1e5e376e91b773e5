//! What is recorded once mounting is over: the module description and
//! the runtime state.

use vstd::prelude::*;

use crate::config::Config;
use crate::defs::join_name;
use crate::executor::ExecutionResult;
use crate::flavor::BuildFlavor;
use crate::module_status::{spec_running_description, spec_with_description, update_description};
use crate::runtime_state::{KasumiRuntimeInfo, RuntimeState};
use crate::storage::StorageMode;

verus! {

/// Whether a directory is present at `path` (`Path::is_dir`, links
/// followed).
#[verifier::external_body]
pub(crate) fn path_is_dir(path: &str) -> bool {
    std::path::Path::new(path).is_dir()
}

/// How many of `present` hold.
pub open spec fn count_true(present: Seq<bool>) -> nat
    decreases present.len(),
{
    if present.len() == 0 {
        0
    } else {
        count_true(present.drop_last()) + if present.last() {
            1nat
        } else {
            0nat
        }
    }
}

/// The number of blacklisted modules whose directory is present: each
/// entry of the blacklist asked on disk (`<moduledir>/<id>` is a
/// directory), the ones found counted.
pub fn count_blacklisted(config: &Config) -> (n: usize)
    ensures
        n <= config.module_blacklist@.len(),
        exists|present: Seq<bool>|
            present.len() == config.module_blacklist@.len() && n == #[trigger] count_true(present),
{
    let mut n: usize = 0;
    let mut i: usize = 0;
    let ghost mut present: Seq<bool> = Seq::empty();
    while i < config.module_blacklist.len()
        invariant
            i <= config.module_blacklist@.len(),
            n <= i,
            present.len() == i,
            n == count_true(present),
        decreases config.module_blacklist@.len() - i,
    {
        let dir = join_name(config.moduledir.as_str(), config.module_blacklist[i].as_str());
        let found = path_is_dir(dir.as_str());
        proof {
            let p0 = present;
            present = present.push(found);
            assert(present.drop_last() =~= p0);
        }
        if found {
            n = n + 1;
        }
        i = i + 1;
    }
    n
}

/// What finalizing writes: the new text of the module's `module.prop`
/// (when it has one) and the runtime state to save.
#[derive(Debug)]
pub struct FinalizeOutcome {
    pub description: Option<String>,
    pub state: RuntimeState,
}

/// The description that finalizing writes for a result.
pub open spec fn spec_final_description(
    config: Config,
    flavor: BuildFlavor,
    storage_mode: StorageMode,
    result: ExecutionResult,
    blacklisted: nat,
) -> Seq<char> {
    spec_running_description(
        flavor,
        storage_mode,
        config.kasumi.enabled,
        result.overlay_module_ids@.len(),
        result.magic_module_ids@.len(),
        result.kasumi_module_ids@.len(),
        blacklisted,
    )
}

/// Whether `desc` is the text of `prop` with its description set to
/// `text`, and present exactly when `prop` is.
pub open spec fn described_as(desc: Option<String>, prop: Option<String>, text: Seq<char>) -> bool {
    match (desc, prop) {
        (Some(d), Some(c)) => d@ == spec_with_description(c@, text),
        (None, None) => true,
        _ => false,
    }
}

/// Finalizes an execution with a known number of present blacklisted
/// modules: `module.prop` gets the running description, and the state is
/// built from the result.
pub fn finalize_with(
    config: &Config,
    flavor: BuildFlavor,
    storage_mode: StorageMode,
    mount_point: &str,
    result: &ExecutionResult,
    prop_content: Option<String>,
    blacklisted: usize,
    previous: RuntimeState,
    kasumi: KasumiRuntimeInfo,
    skip_mount_modules: Vec<String>,
    timestamp: u64,
    pid: u32,
    tmpfs_xattr_supported: bool,
) -> (out: FinalizeOutcome)
    ensures
        described_as(
            out.description,
            prop_content,
            spec_final_description(*config, flavor, storage_mode, *result, blacklisted as nat),
        ),
        RuntimeState::built_from(
            out.state,
            storage_mode,
            mount_point@,
            *result,
            previous,
            kasumi,
            skip_mount_modules@,
            timestamp,
            pid,
            tmpfs_xattr_supported,
        ),
{
    let description = match prop_content {
        Some(c) => Some(
            update_description(
                c.as_str(),
                flavor,
                storage_mode,
                config.kasumi.enabled,
                result.overlay_module_ids.len(),
                result.magic_module_ids.len(),
                result.kasumi_module_ids.len(),
                blacklisted,
            ),
        ),
        None => None,
    };
    let state = RuntimeState::build_from_execution(
        storage_mode,
        mount_point,
        result,
        previous,
        kasumi,
        skip_mount_modules,
        timestamp,
        pid,
        tmpfs_xattr_supported,
    );
    FinalizeOutcome { description, state }
}

/// Finalizes an execution: counts the blacklisted modules present on
/// disk, then as `finalize_with`.
pub fn finalize(
    config: &Config,
    flavor: BuildFlavor,
    storage_mode: StorageMode,
    mount_point: &str,
    result: &ExecutionResult,
    prop_content: Option<String>,
    previous: RuntimeState,
    kasumi: KasumiRuntimeInfo,
    skip_mount_modules: Vec<String>,
    timestamp: u64,
    pid: u32,
    tmpfs_xattr_supported: bool,
) -> (out: FinalizeOutcome)
    ensures
        exists|n: nat|
            n <= config.module_blacklist@.len() && #[trigger] described_as(
                out.description,
                prop_content,
                spec_final_description(*config, flavor, storage_mode, *result, n),
            ),
        RuntimeState::built_from(
            out.state,
            storage_mode,
            mount_point@,
            *result,
            previous,
            kasumi,
            skip_mount_modules@,
            timestamp,
            pid,
            tmpfs_xattr_supported,
        ),
{
    let n = count_blacklisted(config);
    let out = finalize_with(
        config,
        flavor,
        storage_mode,
        mount_point,
        result,
        prop_content,
        n,
        previous,
        kasumi,
        skip_mount_modules,
        timestamp,
        pid,
        tmpfs_xattr_supported,
    );
    assert(described_as(
        out.description,
        prop_content,
        spec_final_description(*config, flavor, storage_mode, *result, n as nat),
    ));
    out
}

} // verus!
