//! The mount plan: what each backend is asked to mount.

use vstd::prelude::*;

verus! {

/// One overlay mount: the layers stacked over a target directory.
#[derive(Debug, Clone)]
pub struct OverlayOperation {
    pub partition_name: String,
    pub target: String,
    pub lowerdirs: Vec<String>,
}

/// A Kasumi rule that routes one path to a file of a module.
#[derive(Debug, Clone)]
pub struct KasumiAddRule {
    pub target: String,
    pub source: String,
    pub file_type: i32,
}

/// A Kasumi rule that merges a module directory into a path.
#[derive(Debug, Clone)]
pub struct KasumiMergeRule {
    pub target: String,
    pub source: String,
}

/// What the backends are asked to mount, and which modules each covers.
#[derive(Debug, Clone)]
pub struct MountPlan {
    pub overlay_ops: Vec<OverlayOperation>,
    pub kasumi_add_rules: Vec<KasumiAddRule>,
    pub kasumi_merge_rules: Vec<KasumiMergeRule>,
    pub kasumi_hide_rules: Vec<String>,
    pub overlay_module_ids: Vec<String>,
    pub magic_module_ids: Vec<String>,
    pub kasumi_module_ids: Vec<String>,
}

impl MountPlan {
    pub open spec fn is_empty_spec(&self) -> bool {
        &&& self.overlay_ops@.len() == 0
        &&& self.kasumi_add_rules@.len() == 0
        &&& self.kasumi_merge_rules@.len() == 0
        &&& self.kasumi_hide_rules@.len() == 0
        &&& self.overlay_module_ids@.len() == 0
        &&& self.magic_module_ids@.len() == 0
        &&& self.kasumi_module_ids@.len() == 0
    }

    /// A plan that mounts nothing.
    pub fn empty() -> (p: Self)
        ensures
            p.is_empty_spec(),
    {
        MountPlan {
            overlay_ops: Vec::new(),
            kasumi_add_rules: Vec::new(),
            kasumi_merge_rules: Vec::new(),
            kasumi_hide_rules: Vec::new(),
            overlay_module_ids: Vec::new(),
            magic_module_ids: Vec::new(),
            kasumi_module_ids: Vec::new(),
        }
    }

    /// Number of modules routed through Kasumi.
    pub fn kasumi_count(&self) -> (n: usize)
        ensures
            n == self.kasumi_module_ids@.len(),
    {
        self.kasumi_module_ids.len()
    }

    /// Drops the compiled Kasumi rules, keeping everything else.
    pub fn clear_kasumi_rules(&mut self)
        ensures
            final(self).kasumi_add_rules@.len() == 0,
            final(self).kasumi_merge_rules@.len() == 0,
            final(self).kasumi_hide_rules@.len() == 0,
            final(self).overlay_ops@ == old(self).overlay_ops@,
            final(self).overlay_module_ids@ == old(self).overlay_module_ids@,
            final(self).magic_module_ids@ == old(self).magic_module_ids@,
            final(self).kasumi_module_ids@ == old(self).kasumi_module_ids@,
    {
        self.kasumi_add_rules.clear();
        self.kasumi_merge_rules.clear();
        self.kasumi_hide_rules.clear();
    }
}

} // verus!
