//! The process-wide state of the encoder model.
use vstd::prelude::*;

verus! {

/// Whether the encoder can be used. A load attempt starts in `Loading` and
/// ends in one of the other states, which are final.
#[derive(Debug, Clone)]
pub enum ModelStatus {
    Loading,
    Ready,
    /// Loading failed, with a readable reason.
    Failed(String),
    /// The model files are not present.
    Unavailable,
}

/// The status as reported to the shell: "loading", "ready",
/// "failed:<reason>" or "unavailable".
pub open spec fn status_text(s: ModelStatus) -> Seq<char> {
    match s {
        ModelStatus::Loading => "loading"@,
        ModelStatus::Ready => "ready"@,
        ModelStatus::Failed(e) => "failed:"@ + e@,
        ModelStatus::Unavailable => "unavailable"@,
    }
}

impl ModelStatus {
    /// The status as text (see `status_text`).
    pub fn as_str(&self) -> (r: String)
        ensures
            r@ == status_text(*self),
    {
        match self {
            ModelStatus::Loading => String::from_str("loading"),
            ModelStatus::Ready => String::from_str("ready"),
            ModelStatus::Failed(e) => String::from_str("failed:").concat(e.as_str()),
            ModelStatus::Unavailable => String::from_str("unavailable"),
        }
    }

    /// The outcome of a load attempt: `Unavailable` when the model files are
    /// not there (nothing was loaded), else `Ready`, or `Failed` with the
    /// reason the load gave.
    pub fn after_load(files_present: bool, load_error: Option<String>) -> (r: ModelStatus)
        ensures
            !files_present ==> r is Unavailable,
            files_present ==> match load_error {
                Some(e) => r == ModelStatus::Failed(e),
                None => r is Ready,
            },
    {
        if !files_present {
            ModelStatus::Unavailable
        } else {
            match load_error {
                Some(e) => ModelStatus::Failed(e),
                None => ModelStatus::Ready,
            }
        }
    }

    /// Whether semantic search may use the encoder.
    pub fn is_ready(&self) -> (r: bool)
        ensures
            r == (*self is Ready),
    {
        match self {
            ModelStatus::Ready => true,
            _ => false,
        }
    }

    /// Records the outcome of the load attempt: only a `Loading` status
    /// changes, and only to a final state.
    pub fn finish_loading(&mut self, outcome: ModelStatus)
        ensures
            (*old(self) is Loading && !(outcome is Loading)) ==> *final(self) == outcome,
            !(*old(self) is Loading && !(outcome is Loading)) ==> *final(self) == *old(self),
    {
        let settle = match self {
            ModelStatus::Loading => match &outcome {
                ModelStatus::Loading => false,
                _ => true,
            },
            _ => false,
        };
        if settle {
            *self = outcome;
        }
    }
}

} // verus!
