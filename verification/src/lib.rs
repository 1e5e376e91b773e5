//! Mount orchestration policy for Android module managers: configuration
//! model, module inventory rules, mount planning decisions and the
//! bookkeeping that surrounds them.

pub mod text;
pub mod order;
pub mod domain;
pub mod path;
pub mod defs;
pub mod validation;
pub mod flavor;
pub mod config;
pub mod inventory;
pub mod storage;
pub mod module_status;
pub mod runtime_state;
pub mod recovery;
pub mod plan;
pub mod executor;
pub mod kasumi;
pub mod kasumi_api;
pub mod umount;
pub mod capabilities;
pub mod partitions;
pub mod fsplan;
pub mod daemon;
pub mod prepare;
pub mod compile;
pub mod magic;
pub mod finalization;
pub mod api;
pub mod mountinfo;
pub mod protocol;
pub mod mount_base;
pub mod storage_setup;
pub mod overlay_mount;
pub mod dispatch;
