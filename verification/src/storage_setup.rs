//! Setting up the storage that holds the prepared module trees, as a
//! machine: the caller performs each requested step (removing stale image
//! files, mounting, probing) and reports what came of it.
//!
//! The storage is a tmpfs when the build has the control plane, ext4 is not
//! forced, the tmpfs mounts and overlay extended attributes work on it;
//! otherwise an ext4 image built from the module sources.

use vstd::prelude::*;

use crate::defs::MODULES_IMG_FILE;
use crate::flavor::BuildFlavor;
use crate::order::{copy_strings, string_views};
use crate::storage::{StorageHandle, StorageMode};
use crate::text::{append_str, string_from_chars};

verus! {

/// Where a storage setup stands.
#[derive(Debug, Clone, Copy, PartialEq, Eq, Structural)]
pub enum SetupPhase {
    ResettingImages,
    Detaching,
    MountingTmpfs,
    ProbingXattr,
    UnmountingTmpfs,
    BuildingExt4,
    Finalizing,
    Done,
    Failed,
}

/// What to do next.
#[derive(Debug, Clone)]
pub enum SetupAction {
    /// Remove the files whose paths match this glob pattern (the image path
    /// followed by `*`); a file that cannot be removed is only reported.
    ResetImages { pattern: String },
    /// Detach what is mounted at `target`, if anything.
    DetachExisting { target: String },
    /// Mount a tmpfs with this source name at `target`.
    MountTmpfs { target: String, source: String },
    /// Check that overlay extended attributes can be set on the tmpfs.
    ProbeOverlayXattr { target: String },
    /// Detach the tmpfs at `target` again.
    UnmountTmpfs { target: String },
    /// Build an ext4 image at `image`, sized for the trees under `sources`,
    /// and mount it at `target`.
    SetupExt4 { target: String, image: String, sources: Vec<String> },
    /// Make the mount at `target` private and, when `register_umount`,
    /// register it for unmounting in app namespaces.
    FinalizeMount { target: String, register_umount: bool },
    /// The storage is ready.
    Ready(StorageHandle),
    /// The setup failed with this error text.
    Fail(String),
}

/// What the last step came to.
#[derive(Debug)]
pub enum SetupEvent {
    /// The stale images were removed, or the pattern could not be used.
    ImagesReset(Result<(), String>),
    /// The previous mount was detached (a failure is only reported).
    Detached,
    /// Whether the tmpfs was mounted.
    TmpfsMounted(bool),
    /// Whether overlay extended attributes work; `None` when the probe
    /// itself failed.
    XattrProbed(Option<bool>),
    /// The tmpfs was detached (a failure is only reported).
    TmpfsUnmounted,
    /// The ext4 image was built and mounted, or why not.
    Ext4Ready(Result<(), String>),
    /// The mount was finalized (failures are only reported).
    Finalized,
}

/// A storage setup in progress.
pub struct StorageSetup {
    phase: SetupPhase,
    mode: StorageMode,
    target: String,
    sources: Vec<String>,
    image: String,
    mount_source: String,
    try_tmpfs: bool,
    register_umount: bool,
}

/// The tmpfs is tried first when the build has the control plane and ext4
/// is not forced.
pub open spec fn spec_try_tmpfs(flavor: BuildFlavor, force_ext4: bool) -> bool {
    flavor.spec_enable_control_plane() && !force_ext4
}

impl StorageSetup {
    pub closed spec fn phase(&self) -> SetupPhase {
        self.phase
    }

    /// The backend chosen so far (meaningful once finalizing).
    pub closed spec fn mode(&self) -> StorageMode {
        self.mode
    }

    pub closed spec fn target(&self) -> Seq<char> {
        self.target@
    }

    pub closed spec fn sources(&self) -> Seq<Seq<char>> {
        string_views(self.sources@)
    }

    pub closed spec fn image(&self) -> Seq<char> {
        self.image@
    }

    pub closed spec fn mount_source(&self) -> Seq<char> {
        self.mount_source@
    }

    pub closed spec fn try_tmpfs(&self) -> bool {
        self.try_tmpfs
    }

    pub closed spec fn register_umount(&self) -> bool {
        self.register_umount
    }

    /// The configuration stays through every step.
    pub open spec fn same_setup(&self, other: &StorageSetup) -> bool {
        &&& self.target() == other.target()
        &&& self.sources() == other.sources()
        &&& self.image() == other.image()
        &&& self.mount_source() == other.mount_source()
        &&& self.try_tmpfs() == other.try_tmpfs()
        &&& self.register_umount() == other.register_umount()
    }

    /// Whether `event` answers the step the current phase asked for.
    pub open spec fn spec_accepts(&self, event: SetupEvent) -> bool {
        match self.phase() {
            SetupPhase::ResettingImages => event is ImagesReset,
            SetupPhase::Detaching => event is Detached,
            SetupPhase::MountingTmpfs => event is TmpfsMounted,
            SetupPhase::ProbingXattr => event is XattrProbed,
            SetupPhase::UnmountingTmpfs => event is TmpfsUnmounted,
            SetupPhase::BuildingExt4 => event is Ext4Ready,
            SetupPhase::Finalizing => event is Finalized,
            SetupPhase::Done => false,
            SetupPhase::Failed => false,
        }
    }

    /// The phase that follows `event`.
    pub open spec fn spec_next_phase(&self, event: SetupEvent) -> SetupPhase {
        match event {
            SetupEvent::ImagesReset(r) => if r is Ok {
                SetupPhase::Detaching
            } else {
                SetupPhase::Failed
            },
            SetupEvent::Detached => if self.try_tmpfs() {
                SetupPhase::MountingTmpfs
            } else {
                SetupPhase::BuildingExt4
            },
            SetupEvent::TmpfsMounted(ok) => if ok {
                SetupPhase::ProbingXattr
            } else {
                SetupPhase::BuildingExt4
            },
            SetupEvent::XattrProbed(r) => if r == Some(true) {
                SetupPhase::Finalizing
            } else {
                SetupPhase::UnmountingTmpfs
            },
            SetupEvent::TmpfsUnmounted => SetupPhase::BuildingExt4,
            SetupEvent::Ext4Ready(r) => if r is Ok {
                SetupPhase::Finalizing
            } else {
                SetupPhase::Failed
            },
            SetupEvent::Finalized => SetupPhase::Done,
        }
    }

    /// The action that the phase this setup is in asks for; a failure
    /// carries `error`.
    pub open spec fn asks(&self, a: SetupAction, error: Seq<char>) -> bool {
        match self.phase() {
            SetupPhase::ResettingImages => a matches SetupAction::ResetImages { pattern }
                && pattern@ == self.image() + "*"@,
            SetupPhase::Detaching => a matches SetupAction::DetachExisting { target }
                && target@ == self.target(),
            SetupPhase::MountingTmpfs => a matches SetupAction::MountTmpfs { target, source }
                && target@ == self.target() && source@ == self.mount_source(),
            SetupPhase::ProbingXattr => a matches SetupAction::ProbeOverlayXattr { target }
                && target@ == self.target(),
            SetupPhase::UnmountingTmpfs => a matches SetupAction::UnmountTmpfs { target }
                && target@ == self.target(),
            SetupPhase::BuildingExt4 => a matches SetupAction::SetupExt4 { target, image, sources }
                && target@ == self.target() && image@ == self.image() && string_views(sources@)
                == self.sources(),
            SetupPhase::Finalizing => a matches SetupAction::FinalizeMount {
                target,
                register_umount,
            } && target@ == self.target() && register_umount == self.register_umount(),
            SetupPhase::Done => a matches SetupAction::Ready(h) && h.spec_mount_point()
                == self.target() && h.spec_mode() == self.mode(),
            SetupPhase::Failed => a matches SetupAction::Fail(m) && m@ == error,
        }
    }

    fn action(&self, error: Option<String>) -> (a: SetupAction)
        requires
            self.phase() == SetupPhase::Failed ==> error is Some,
        ensures
            self.asks(
                a,
                match error {
                    Some(e) => e@,
                    None => Seq::empty(),
                },
            ),
    {
        match self.phase {
            SetupPhase::ResettingImages => {
                let mut v: Vec<char> = Vec::new();
                append_str(&mut v, self.image.as_str());
                append_str(&mut v, "*");
                SetupAction::ResetImages { pattern: string_from_chars(&v) }
            },
            SetupPhase::Detaching => SetupAction::DetachExisting { target: self.target.clone() },
            SetupPhase::MountingTmpfs => SetupAction::MountTmpfs {
                target: self.target.clone(),
                source: self.mount_source.clone(),
            },
            SetupPhase::ProbingXattr => SetupAction::ProbeOverlayXattr {
                target: self.target.clone(),
            },
            SetupPhase::UnmountingTmpfs => SetupAction::UnmountTmpfs { target: self.target.clone() },
            SetupPhase::BuildingExt4 => SetupAction::SetupExt4 {
                target: self.target.clone(),
                image: self.image.clone(),
                sources: copy_strings(&self.sources),
            },
            SetupPhase::Finalizing => SetupAction::FinalizeMount {
                target: self.target.clone(),
                register_umount: self.register_umount,
            },
            SetupPhase::Done => SetupAction::Ready(StorageHandle::new(self.target.as_str(), self.mode)),
            SetupPhase::Failed => match error {
                Some(e) => SetupAction::Fail(e),
                None => SetupAction::Fail(String::new()),
            },
        }
    }

    /// Whether `event` answers the step asked for (see `spec_accepts`).
    pub fn accepts(&self, event: &SetupEvent) -> (b: bool)
        ensures
            b == self.spec_accepts(*event),
    {
        match self.phase {
            SetupPhase::ResettingImages => matches!(event, SetupEvent::ImagesReset(_)),
            SetupPhase::Detaching => matches!(event, SetupEvent::Detached),
            SetupPhase::MountingTmpfs => matches!(event, SetupEvent::TmpfsMounted(_)),
            SetupPhase::ProbingXattr => matches!(event, SetupEvent::XattrProbed(_)),
            SetupPhase::UnmountingTmpfs => matches!(event, SetupEvent::TmpfsUnmounted),
            SetupPhase::BuildingExt4 => matches!(event, SetupEvent::Ext4Ready(_)),
            SetupPhase::Finalizing => matches!(event, SetupEvent::Finalized),
            SetupPhase::Done => false,
            SetupPhase::Failed => false,
        }
    }

    /// Moves the setup on by one event and says what to do next: the phase
    /// that follows (see `spec_next_phase`) and the step it asks for. The
    /// backend becomes tmpfs once the overlay attribute probe succeeds, and
    /// ext4 once the image is mounted.
    pub fn step(&mut self, event: SetupEvent) -> (a: SetupAction)
        requires
            old(self).spec_accepts(event),
        ensures
            final(self).same_setup(old(self)),
            final(self).phase() == old(self).spec_next_phase(event),
            event matches SetupEvent::XattrProbed(r) && r == Some(true) ==> final(self).mode()
                == StorageMode::Tmpfs,
            event matches SetupEvent::Ext4Ready(r) && r is Ok ==> final(self).mode()
                == StorageMode::Ext4,
            !(event is XattrProbed || event is Ext4Ready) ==> final(self).mode() == old(self).mode(),
            final(self).asks(
                a,
                match event {
                    SetupEvent::ImagesReset(Err(e)) => e@,
                    SetupEvent::Ext4Ready(Err(e)) => e@,
                    _ => Seq::empty(),
                },
            ),
    {
        let mut error: Option<String> = None;
        match event {
            SetupEvent::ImagesReset(r) => match r {
                Ok(()) => {
                    self.phase = SetupPhase::Detaching;
                },
                Err(e) => {
                    self.phase = SetupPhase::Failed;
                    error = Some(e);
                },
            },
            SetupEvent::Detached => {
                self.phase = if self.try_tmpfs {
                    SetupPhase::MountingTmpfs
                } else {
                    SetupPhase::BuildingExt4
                };
            },
            SetupEvent::TmpfsMounted(ok) => {
                self.phase = if ok {
                    SetupPhase::ProbingXattr
                } else {
                    SetupPhase::BuildingExt4
                };
            },
            SetupEvent::XattrProbed(r) => {
                let works = match r {
                    Some(b) => b,
                    None => false,
                };
                if works {
                    self.phase = SetupPhase::Finalizing;
                    self.mode = StorageMode::Tmpfs;
                } else {
                    self.phase = SetupPhase::UnmountingTmpfs;
                }
            },
            SetupEvent::TmpfsUnmounted => {
                self.phase = SetupPhase::BuildingExt4;
            },
            SetupEvent::Ext4Ready(r) => match r {
                Ok(()) => {
                    self.phase = SetupPhase::Finalizing;
                    self.mode = StorageMode::Ext4;
                },
                Err(e) => {
                    self.phase = SetupPhase::Failed;
                    error = Some(e);
                },
            },
            SetupEvent::Finalized => {
                self.phase = SetupPhase::Done;
            },
        }
        self.action(error)
    }
}

/// Starts setting up storage at `mnt_base` for the module trees under
/// `source_paths`, with the ext4 image at `img_path`: returns the setup and
/// its first step, the removal of stale image files.
pub fn setup_with_sources(
    mnt_base: &str,
    source_paths: &Vec<String>,
    force_ext4: bool,
    mount_source: &str,
    disable_umount: bool,
    img_path: &str,
    flavor: BuildFlavor,
) -> (r: (StorageSetup, SetupAction))
    ensures
        r.0.phase() == SetupPhase::ResettingImages,
        r.0.target() == mnt_base@,
        r.0.sources() == string_views(source_paths@),
        r.0.image() == img_path@,
        r.0.mount_source() == mount_source@,
        r.0.try_tmpfs() == spec_try_tmpfs(flavor, force_ext4),
        r.0.register_umount() == !disable_umount,
        r.0.asks(r.1, Seq::empty()),
{
    let setup = StorageSetup {
        phase: SetupPhase::ResettingImages,
        mode: StorageMode::Ext4,
        target: mnt_base.to_owned(),
        sources: copy_strings(source_paths),
        image: img_path.to_owned(),
        mount_source: mount_source.to_owned(),
        try_tmpfs: flavor.enable_control_plane() && !force_ext4,
        register_umount: !disable_umount,
    };
    let a = setup.action(None);
    (setup, a)
}

/// Starts setting up storage at `mnt_base` for the modules under
/// `moduledir`, with the image at its usual place.
pub fn setup(
    mnt_base: &str,
    moduledir: &str,
    force_ext4: bool,
    mount_source: &str,
    disable_umount: bool,
    flavor: BuildFlavor,
) -> (r: (StorageSetup, SetupAction))
    ensures
        r.0.phase() == SetupPhase::ResettingImages,
        r.0.target() == mnt_base@,
        r.0.sources() == seq![moduledir@],
        r.0.image() == MODULES_IMG_FILE@,
        r.0.mount_source() == mount_source@,
        r.0.try_tmpfs() == spec_try_tmpfs(flavor, force_ext4),
        r.0.register_umount() == !disable_umount,
        r.0.asks(r.1, Seq::empty()),
{
    let mut sources: Vec<String> = Vec::new();
    sources.push(moduledir.to_owned());
    assert(string_views(sources@) =~= seq![moduledir@]);
    setup_with_sources(mnt_base, &sources, force_ext4, mount_source, disable_umount, MODULES_IMG_FILE, flavor)
}

} // verus!
