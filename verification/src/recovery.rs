//! Failures that name the modules they concern, so that startup recovery
//! can mark exactly those modules.

use vstd::prelude::*;
use crate::order::string_views;
use crate::text::{join_strings, join_with, append_str, string_from_chars};

verus! {

/// The step of a mount run at which modules failed.
#[derive(Debug, Clone, Copy, PartialEq, Eq, Structural)]
pub enum FailureStage {
    Sync,
    Execute,
}

impl FailureStage {
    pub open spec fn spec_name(self) -> Seq<char> {
        match self {
            FailureStage::Sync => "sync"@,
            FailureStage::Execute => "execute"@,
        }
    }

    /// The stage as it is shown in messages.
    pub fn as_str(self) -> (s: &'static str)
        ensures
            s@ == self.spec_name(),
    {
        match self {
            FailureStage::Sync => "sync",
            FailureStage::Execute => "execute",
        }
    }
}

/// A failure at one stage, with the modules it concerns and its cause.
#[derive(Debug, Clone)]
pub struct ModuleStageFailure {
    pub stage: FailureStage,
    pub module_ids: Vec<String>,
    pub source: String,
}

impl ModuleStageFailure {
    pub fn new(stage: FailureStage, module_ids: Vec<String>, source: String) -> (f: Self)
        ensures
            f.stage == stage,
            f.module_ids@ == module_ids@,
            f.source@ == source@,
    {
        ModuleStageFailure { stage, module_ids, source }
    }

    pub fn sync(module_ids: Vec<String>, source: String) -> (f: Self)
        ensures
            f.stage == FailureStage::Sync,
            f.module_ids@ == module_ids@,
            f.source@ == source@,
    {
        Self::new(FailureStage::Sync, module_ids, source)
    }

    pub fn execute(module_ids: Vec<String>, source: String) -> (f: Self)
        ensures
            f.stage == FailureStage::Execute,
            f.module_ids@ == module_ids@,
            f.source@ == source@,
    {
        Self::new(FailureStage::Execute, module_ids, source)
    }

    /// A synchronisation failure of one module.
    pub fn sync_one(module_id: &str, source: String) -> (f: Self)
        ensures
            f.stage == FailureStage::Sync,
            string_views(f.module_ids@) == seq![module_id@],
            f.source@ == source@,
    {
        let mut ids: Vec<String> = Vec::new();
        ids.push(module_id.to_owned());
        let f = Self::sync(ids, source);
        assert(string_views(f.module_ids@) =~= seq![module_id@]);
        f
    }

    /// The text of the failure: its stage, the modules if any, its cause.
    pub open spec fn spec_message(&self) -> Seq<char> {
        if self.module_ids@.len() == 0 {
            "module stage failure during "@ + self.stage.spec_name() + ": "@ + self.source@
        } else {
            "module stage failure during "@ + self.stage.spec_name() + " for ["@ + join_with(
                string_views(self.module_ids@),
                ", "@,
            ) + "]: "@ + self.source@
        }
    }

    pub fn message(&self) -> (s: String)
        ensures
            s@ == self.spec_message(),
    {
        let mut v: Vec<char> = Vec::new();
        append_str(&mut v, "module stage failure during ");
        append_str(&mut v, self.stage.as_str());
        if self.module_ids.len() == 0 {
            append_str(&mut v, ": ");
        } else {
            append_str(&mut v, " for [");
            let joined = join_strings(&self.module_ids, ", ");
            append_str(&mut v, joined.as_str());
            append_str(&mut v, "]: ");
        }
        append_str(&mut v, self.source.as_str());
        string_from_chars(&v)
    }
}

/// What the retry bookkeeping decides after a failure.
#[derive(Debug, Clone, Copy, PartialEq, Eq, Structural)]
pub enum RecoveryDecision {
    /// Try again without marking modules.
    RetryUnattributed,
    /// The retry limit is reached: give up.
    AbortRetryLimit,
    /// Look at the modules involved.
    InspectModules,
}

/// Where startup recovery stands.
#[derive(Debug, Clone, Copy, PartialEq, Eq, Structural)]
pub enum RecoveryPhase {
    /// A mount attempt runs.
    Attempting,
    /// A failure that names no module awaits the retry decision.
    AwaitUnattributed,
    /// The modules of a failure are being marked to be skipped.
    AwaitMarking,
    /// Newly marked modules await the retry decision.
    AwaitNewlyMarked,
    /// The mount succeeded.
    Done,
    /// Recovery gave up.
    Failed,
}

/// What happened since the last step.
#[derive(Debug, Clone)]
pub enum RecoveryEvent {
    /// The attempt mounted everything.
    AttemptOk,
    /// The attempt failed: with the stage failure it carries, if any, and
    /// the text of the whole error chain.
    AttemptFailed { failure: Option<ModuleStageFailure>, message: String },
    /// The retry bookkeeping decided.
    Decided(RecoveryDecision),
    /// The modules were marked; how many of them newly.
    Marked { newly_marked: usize },
}

/// What startup recovery does next.
#[derive(Debug, Clone)]
pub enum RecoveryAction {
    /// Report success and return the configuration.
    Complete,
    /// Clean up after the failed attempt and start another.
    StartAttempt,
    /// Ask for a decision on a failure that names no module, at a stage.
    DecideUnattributed(String),
    /// Mark the modules of a failure as skipped, with its stage and cause.
    MarkModules { stage: String, source: String, module_ids: Vec<String> },
    /// Ask for a decision on newly marked modules, at a stage.
    DecideNewlyMarked(String),
    /// Give up at the retry limit.
    AbortRetryLimit,
    /// Give up: write the crash description with this text and fail.
    Unrecoverable(String),
}

/// An error chain's text on one line: each line break becomes `" -> "`.
pub open spec fn flatten_lines(s: Seq<char>) -> Seq<char>
    decreases s.len(),
{
    if s.len() == 0 {
        seq![]
    } else {
        (if s[0] == '\n' {
            seq![' ', '-', '>', ' ']
        } else {
            seq![s[0]]
        }) + flatten_lines(s.drop_first())
    }
}

pub fn flatten_error_text(s: &str) -> (r: String)
    ensures
        r@ == flatten_lines(s@),
{
    let c = crate::text::chars_of(s);
    let mut out: Vec<char> = Vec::new();
    let mut i: usize = c.len();
    // Built from the back: out holds the flattening of c[i..].
    assert(c@.skip(i as int) =~= Seq::<char>::empty());
    while i > 0
        invariant
            i <= c@.len(),
            c@ == s@,
            out@ == flatten_lines(c@.skip(i as int)),
        decreases i,
    {
        let ch = c[i - 1];
        let mut piece: Vec<char> = Vec::new();
        if ch == '\n' {
            piece.push(' ');
            piece.push('-');
            piece.push('>');
            piece.push(' ');
        } else {
            piece.push(ch);
        }
        proof {
            assert(c@.skip(i - 1).drop_first() =~= c@.skip(i as int));
            assert(c@.skip(i - 1)[0] == ch);
        }
        crate::text::append_chars(&mut piece, &out);
        out = piece;
        i = i - 1;
    }
    assert(c@.skip(0) =~= c@);
    string_from_chars(&out)
}

/// How many mount attempts startup recovery makes before it gives up.
pub const MAX_ATTEMPTS: usize = 3;

/// Startup recovery as a state machine: the phase, the failure being
/// handled, the attempt under way (counted from 1) and the most it makes.
#[derive(Debug, Clone)]
pub struct RecoveryMachine {
    pub phase: RecoveryPhase,
    pub failure: Option<ModuleStageFailure>,
    pub message: String,
    pub attempt: usize,
    pub max_attempts: usize,
}

impl RecoveryMachine {
    /// The first attempt starts, with at most `MAX_ATTEMPTS` in all.
    pub fn new() -> (m: Self)
        ensures
            m.phase == RecoveryPhase::Attempting,
            m.failure is None,
            m.attempt == 1,
            m.max_attempts == MAX_ATTEMPTS,
    {
        RecoveryMachine {
            phase: RecoveryPhase::Attempting,
            failure: None,
            message: String::new(),
            attempt: 1,
            max_attempts: MAX_ATTEMPTS,
        }
    }

    /// The retry decision the phase waits for: give up once the last
    /// attempt has failed; otherwise retry after a failure that names no
    /// module, and go on after newly marked modules.
    pub open spec fn spec_decision(&self) -> RecoveryDecision {
        if self.attempt >= self.max_attempts {
            RecoveryDecision::AbortRetryLimit
        } else if self.phase == RecoveryPhase::AwaitUnattributed {
            RecoveryDecision::RetryUnattributed
        } else {
            RecoveryDecision::InspectModules
        }
    }

    pub fn decision(&self) -> (d: RecoveryDecision)
        ensures
            d == self.spec_decision(),
    {
        if self.attempt >= self.max_attempts {
            RecoveryDecision::AbortRetryLimit
        } else if self.phase == RecoveryPhase::AwaitUnattributed {
            RecoveryDecision::RetryUnattributed
        } else {
            RecoveryDecision::InspectModules
        }
    }

    /// Whether `ev` is what the phase waits for.
    pub open spec fn spec_accepts(&self, ev: RecoveryEvent) -> bool {
        match self.phase {
            RecoveryPhase::Attempting => ev matches RecoveryEvent::AttemptOk
                || ev matches RecoveryEvent::AttemptFailed { .. },
            RecoveryPhase::AwaitUnattributed | RecoveryPhase::AwaitNewlyMarked => ev matches RecoveryEvent::Decided(_),
            RecoveryPhase::AwaitMarking => ev matches RecoveryEvent::Marked { .. },
            _ => false,
        }
    }

    pub fn accepts(&self, ev: &RecoveryEvent) -> (b: bool)
        ensures
            b == self.spec_accepts(*ev),
    {
        match self.phase {
            RecoveryPhase::Attempting => match ev {
                RecoveryEvent::AttemptOk => true,
                RecoveryEvent::AttemptFailed { .. } => true,
                _ => false,
            },
            RecoveryPhase::AwaitUnattributed | RecoveryPhase::AwaitNewlyMarked => match ev {
                RecoveryEvent::Decided(_) => true,
                _ => false,
            },
            RecoveryPhase::AwaitMarking => match ev {
                RecoveryEvent::Marked { .. } => true,
                _ => false,
            },
            _ => false,
        }
    }

    /// One step. A successful attempt completes. A failure that carries no
    /// stage failure is unrecoverable; one that names modules has them
    /// marked; one that names none asks for a decision, which retries,
    /// gives up at the limit, or goes on to marking. Marking that marked
    /// nothing new is unrecoverable; otherwise a decision retries (also
    /// when it says to inspect) or gives up at the limit.
    pub fn step(&mut self, ev: RecoveryEvent) -> (a: RecoveryAction)
        requires
            old(self).spec_accepts(ev),
        ensures
            final(self).max_attempts == old(self).max_attempts,
            final(self).attempt == (if (a matches RecoveryAction::StartAttempt) && old(self).attempt < usize::MAX {
                old(self).attempt + 1
            } else {
                old(self).attempt as int
            }),
            match (old(self).phase, ev) {
                (RecoveryPhase::Attempting, RecoveryEvent::AttemptOk) => {
                    &&& final(self).phase == RecoveryPhase::Done
                    &&& a matches RecoveryAction::Complete
                },
                (RecoveryPhase::Attempting, RecoveryEvent::AttemptFailed { failure, message }) => match failure {
                    None => {
                        &&& final(self).phase == RecoveryPhase::Failed
                        &&& a matches RecoveryAction::Unrecoverable(t) && t@ == flatten_lines(message@)
                    },
                    Some(f) => {
                        &&& final(self).failure == Some(f)
                        &&& final(self).message@ == message@
                        &&& if f.module_ids@.len() == 0 {
                            &&& final(self).phase == RecoveryPhase::AwaitUnattributed
                            &&& a matches RecoveryAction::DecideUnattributed(st) && st@ == f.stage.spec_name()
                        } else {
                            &&& final(self).phase == RecoveryPhase::AwaitMarking
                            &&& a matches RecoveryAction::MarkModules { stage, source, module_ids } && stage@
                                == f.stage.spec_name() && source@ == f.source@ && module_ids@ == f.module_ids@
                        }
                    },
                },
                (RecoveryPhase::AwaitUnattributed, RecoveryEvent::Decided(d)) => match d {
                    RecoveryDecision::RetryUnattributed => {
                        &&& final(self).phase == RecoveryPhase::Attempting
                        &&& final(self).failure is None
                        &&& a matches RecoveryAction::StartAttempt
                    },
                    RecoveryDecision::AbortRetryLimit => {
                        &&& final(self).phase == RecoveryPhase::Failed
                        &&& a matches RecoveryAction::AbortRetryLimit
                    },
                    RecoveryDecision::InspectModules => {
                        &&& final(self).phase == RecoveryPhase::AwaitMarking
                        &&& final(self).failure == old(self).failure
                        &&& final(self).message == old(self).message
                        &&& old(self).failure matches Some(f) ==> (a matches RecoveryAction::MarkModules {
                            stage,
                            source,
                            module_ids,
                        } && stage@ == f.stage.spec_name() && source@ == f.source@ && module_ids@
                            == f.module_ids@)
                    },
                },
                (RecoveryPhase::AwaitMarking, RecoveryEvent::Marked { newly_marked }) => if newly_marked > 0 {
                    &&& final(self).phase == RecoveryPhase::AwaitNewlyMarked
                    &&& final(self).failure == old(self).failure
                    &&& old(self).failure matches Some(f) ==> (a matches RecoveryAction::DecideNewlyMarked(st)
                        && st@ == f.stage.spec_name())
                } else {
                    &&& final(self).phase == RecoveryPhase::Failed
                    &&& a matches RecoveryAction::Unrecoverable(t) && t@ == flatten_lines(old(self).message@)
                },
                (RecoveryPhase::AwaitNewlyMarked, RecoveryEvent::Decided(d)) => if d
                    == RecoveryDecision::AbortRetryLimit {
                    &&& final(self).phase == RecoveryPhase::Failed
                    &&& a matches RecoveryAction::AbortRetryLimit
                } else {
                    &&& final(self).phase == RecoveryPhase::Attempting
                    &&& final(self).failure is None
                    &&& a matches RecoveryAction::StartAttempt
                },
                _ => false,
            },
    {
        match ev {
            RecoveryEvent::AttemptOk => {
                self.phase = RecoveryPhase::Done;
                RecoveryAction::Complete
            },
            RecoveryEvent::AttemptFailed { failure, message } => match failure {
                None => {
                    self.phase = RecoveryPhase::Failed;
                    RecoveryAction::Unrecoverable(flatten_error_text(message.as_str()))
                },
                Some(f) => {
                    let stage = String::from_str(f.stage.as_str());
                    let action = if f.module_ids.len() == 0 {
                        self.phase = RecoveryPhase::AwaitUnattributed;
                        RecoveryAction::DecideUnattributed(stage)
                    } else {
                        self.phase = RecoveryPhase::AwaitMarking;
                        RecoveryAction::MarkModules {
                            stage,
                            source: f.source.clone(),
                            module_ids: f.module_ids.clone(),
                        }
                    };
                    self.failure = Some(f);
                    self.message = message;
                    action
                },
            },
            RecoveryEvent::Decided(d) => {
                if self.phase == RecoveryPhase::AwaitUnattributed {
                    match d {
                        RecoveryDecision::RetryUnattributed => {
                            self.phase = RecoveryPhase::Attempting;
                            self.failure = None;
                            if self.attempt < usize::MAX {
                                self.attempt = self.attempt + 1;
                            }
                            RecoveryAction::StartAttempt
                        },
                        RecoveryDecision::AbortRetryLimit => {
                            self.phase = RecoveryPhase::Failed;
                            RecoveryAction::AbortRetryLimit
                        },
                        RecoveryDecision::InspectModules => {
                            self.phase = RecoveryPhase::AwaitMarking;
                            self.mark_action()
                        },
                    }
                } else {
                    if d == RecoveryDecision::AbortRetryLimit {
                        self.phase = RecoveryPhase::Failed;
                        RecoveryAction::AbortRetryLimit
                    } else {
                        self.phase = RecoveryPhase::Attempting;
                        self.failure = None;
                        if self.attempt < usize::MAX {
                            self.attempt = self.attempt + 1;
                        }
                        RecoveryAction::StartAttempt
                    }
                }
            },
            RecoveryEvent::Marked { newly_marked } => {
                if newly_marked > 0 {
                    self.phase = RecoveryPhase::AwaitNewlyMarked;
                    match &self.failure {
                        Some(f) => RecoveryAction::DecideNewlyMarked(String::from_str(f.stage.as_str())),
                        None => RecoveryAction::DecideNewlyMarked(String::new()),
                    }
                } else {
                    self.phase = RecoveryPhase::Failed;
                    RecoveryAction::Unrecoverable(flatten_error_text(self.message.as_str()))
                }
            },
        }
    }

    fn mark_action(&self) -> (a: RecoveryAction)
        ensures
            a matches RecoveryAction::MarkModules { .. },
            self.failure matches Some(f) ==> (a matches RecoveryAction::MarkModules {
                stage,
                source,
                module_ids,
            } && stage@ == f.stage.spec_name() && source@ == f.source@ && module_ids@
                == f.module_ids@),
    {
        match &self.failure {
            Some(f) => RecoveryAction::MarkModules {
                stage: String::from_str(f.stage.as_str()),
                source: f.source.clone(),
                module_ids: f.module_ids.clone(),
            },
            None => RecoveryAction::MarkModules {
                stage: String::new(),
                source: String::new(),
                module_ids: Vec::new(),
            },
        }
    }
}

} // verus!
