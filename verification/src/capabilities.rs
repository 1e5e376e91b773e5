//! Which mount backends can be used on this device.

use vstd::prelude::*;
use crate::config::Config;
use crate::flavor::BuildFlavor;
use crate::kasumi::{
    KasumiProbe, KasumiStatus, StatusCache, check_status, can_operate, spec_check, spec_status_name,
    status_name,
};

verus! {

/// What was found out about the backends.
#[derive(Debug, Clone)]
pub struct BackendCapabilities {
    kasumi_status: String,
    kasumi_usable: bool,
}

impl BackendCapabilities {
    pub closed spec fn spec_kasumi_status(&self) -> Seq<char> {
        self.kasumi_status@
    }

    pub closed spec fn spec_can_use_kasumi(&self) -> bool {
        self.kasumi_usable
    }

    /// Nothing known: no status, Kasumi unusable.
    pub fn none() -> (c: Self)
        ensures
            c.spec_kasumi_status().len() == 0,
            !c.spec_can_use_kasumi(),
    {
        BackendCapabilities { kasumi_status: String::new(), kasumi_usable: false }
    }

    /// The capabilities under `config`: builds without Kasumi report it
    /// `"disabled"`; otherwise the (cached) status is reported, and Kasumi
    /// is usable when it is enabled and the status is `Available`.
    pub fn detect(
        config: &Config,
        flavor: BuildFlavor,
        cache: &mut StatusCache,
        probe: &KasumiProbe,
        expected_protocol: i32,
    ) -> (c: Self)
        ensures
            !flavor.spec_enable_kasumi() ==> c.spec_kasumi_status() == "disabled"@
                && !c.spec_can_use_kasumi() && *final(cache) == *old(cache),
            flavor.spec_enable_kasumi() ==> {
                let (c1, s) = spec_check(*old(cache), *probe, expected_protocol);
                &&& *final(cache) == c1
                &&& c.spec_kasumi_status() == spec_status_name(s)
                &&& c.spec_can_use_kasumi() == (config.kasumi.enabled && s
                    == KasumiStatus::Available)
            },
    {
        if !flavor.enable_kasumi() {
            return BackendCapabilities { kasumi_status: "disabled".to_owned(), kasumi_usable: false };
        }
        let status = check_status(cache, probe, expected_protocol);
        let usable = config.kasumi.enabled && can_operate(cache, probe, expected_protocol);
        BackendCapabilities { kasumi_status: status_name(status).to_owned(), kasumi_usable: usable }
    }

    pub fn can_use_kasumi(&self) -> (b: bool)
        ensures
            b == self.spec_can_use_kasumi(),
    {
        self.kasumi_usable
    }

    pub fn kasumi_status(&self) -> (s: &str)
        ensures
            s@ == self.spec_kasumi_status(),
    {
        self.kasumi_status.as_str()
    }
}

} // verus!
