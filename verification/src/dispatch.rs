//! The dispatch protocol that keeps the input loop responsive while a
//! generation request is outstanding.
//!
//! A single dispatch moves `Idle -> Pending -> Delivered | Failed -> Idle`.
//! Only one request is ever outstanding: submission is allowed only from
//! `Idle`.  The driver owning the session state performs the actual call
//! out of line and hands the outcome back as a plain value.

use crate::chat_structs::Message;
use vstd::prelude::*;

verus! {

/// The state of the single permitted outstanding generation request.
#[derive(Clone, Copy, Debug, PartialEq, Eq, Structural)]
pub enum DispatchState {
    Idle,
    Pending,
    Delivered,
    Failed,
}

impl DispatchState {
    /// Whether a new submission may be accepted.
    pub open spec fn can_submit(self) -> bool {
        self is Idle
    }

    /// Accepts a submission.  Allowed only while idle, so a second
    /// submission can never overlap an outstanding one.
    pub fn submit(&mut self)
        requires
            old(self).can_submit(),
        ensures
            *final(self) is Pending,
    {
        *self = DispatchState::Pending;
    }

    /// Records the outcome of the outstanding call.
    pub fn resolve(&mut self, success: bool)
        requires
            *old(self) is Pending,
        ensures
            success ==> *final(self) is Delivered,
            !success ==> *final(self) is Failed,
            !final(self).can_submit(),
    {
        *self = if success {
            DispatchState::Delivered
        } else {
            DispatchState::Failed
        };
    }

    /// Returns to idle once the outcome has been applied to the session
    /// state.  Both outcomes converge back to `Idle`.
    pub fn acknowledge(&mut self)
        requires
            *old(self) is Delivered || *old(self) is Failed,
        ensures
            *final(self) is Idle,
            final(self).can_submit(),
    {
        *self = DispatchState::Idle;
    }
}

/// Why a generation call failed.
#[derive(Clone, Copy, Debug, PartialEq, Eq, Structural)]
pub enum GenErrorKind {
    Auth,
    Network,
    Malformed,
    Other,
}

/// A typed generation failure: never thrown, always returned as a value
/// and surfaced to the user as distinguishable assistant-tagged text.
#[derive(Debug, Clone)]
pub struct GenerationError {
    pub kind: GenErrorKind,
    pub message: String,
}

/// The mathematical value of a [`GenerationError`].
#[verifier::ext_equal]
pub struct GenErrorView {
    pub kind: GenErrorKind,
    pub message: Seq<char>,
}

impl View for GenerationError {
    type V = GenErrorView;

    open spec fn view(&self) -> GenErrorView {
        GenErrorView { kind: self.kind, message: self.message@ }
    }
}

/// What a resolved dispatch delivers back to the conversation screen.
#[derive(Debug)]
pub enum GenerationOutcome {
    Delivered(String),
    Failed(GenerationError),
}

/// The text that lands in the transcript for an outcome: the reply verbatim
/// on success, the error tagged with a fixed prefix on failure, so the user
/// can tell it came from the gateway rather than the backend.
pub open spec fn outcome_text(o: GenerationOutcome) -> Seq<char> {
    match o {
        GenerationOutcome::Delivered(t) => t@,
        GenerationOutcome::Failed(e) => "AI Error: "@ + e.message@,
    }
}

/// The transcript text of an outcome.
pub fn outcome_to_text(o: GenerationOutcome) -> (r: String)
    ensures
        r@ == outcome_text(o),
{
    match o {
        GenerationOutcome::Delivered(t) => t,
        GenerationOutcome::Failed(e) => {
            let mut r = "AI Error: ".to_owned();
            r.append(e.message.as_str());
            r
        },
    }
}

/// What the session loop is asked to do after a key or an outcome has been
/// handled.  The library decides; the driver performs the effect and feeds
/// the result back in as plain values.
#[derive(Debug)]
pub enum Effect {
    /// Nothing to do.
    Nothing,
    /// Load the persisted branches and open the conversation screen.
    LoadChat,
    /// Load the persisted settings and open the configuration screen.
    LoadSettings,
    /// Persist the conversation branches.
    PersistBranches,
    /// Persist the conversation branches, then request a best-effort title
    /// for the selected branch; a title failure is swallowed.
    PersistBranchesAndTitle,
    /// Persist the settings.
    PersistSettings,
    /// Start a generation call out of line: the prompt as the final user
    /// turn after the given history.
    SubmitGeneration { history: Vec<Message>, prompt: String },
}

} // verus!
