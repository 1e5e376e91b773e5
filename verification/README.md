# hybrid_mount

Mount orchestration for Android module managers (KernelSU, APatch): which
module files are mounted over the system partitions, by which backend
(OverlayFS, magic bind mounts, Kasumi), and what is recorded about it.

The policy is a Verus-verified library; a thin binary performs the file
system, mount and process work that the library asks for.

## Layout

- `src/` — the verified library. Every executable function carries a
  `requires`/`ensures` contract over mathematical models (`Seq`, `Set`,
  spec functions), and the cross-function properties stand as public
  `lemma_*` proof functions:
  - configuration and rules: `config`, `domain` (modes, longest-prefix
    path rules, precedence), `inventory` (module discovery, marker files),
    `validation` (module identifiers, `module.prop`);
  - planning: `prepare` (per-module backend decisions, overlay layer
    stacking), `compile` (Kasumi rules), `magic` (magic mount decisions),
    `fsplan` (staged trees on disk), `partitions`, `capabilities`;
  - execution as state machines driven by the caller: `executor` (mount
    plan), `storage_setup` (tmpfs or ext4 storage), `recovery` (startup
    retries), `dispatch` (what the daemon does for each command);
  - records and reports: `runtime_state`, `finalization`, `module_status`,
    `api`, `kasumi_api`, `protocol`, `daemon`;
  - the Kasumi kernel interface: `kasumi` (requests, replies, errors);
  - shared helpers: `text`, `order`, `path`, `defs`, `umount`,
    `mountinfo`, `mount_base`, `storage`, `plan`, `flavor`.
- `tests/` — scenario tests run against the compiled library.
- `app/` — the command-line program: configuration files, disk reads,
  mount system calls, the daemon socket, and the loops that feed the
  library's machines.
