//! The upload flow for one composed sheet image, as a decision function.
//!
//! The registry collaborator performs the transfer and classifies its
//! response; this module decides what follows each response. A warning that
//! only says the page already exists (which an update intends) is retried at
//! once with the returned file key, ignoring warnings; any other warning is
//! put to the human first. One explicit re-attempt is the cap: a warning on
//! the retried upload is not retried again but handed over for a manual
//! upload.
use vstd::prelude::*;

verus! {

/// How the registry collaborator classified one upload response.
pub enum UploadOutcome {
    /// The upload went through.
    Success,
    /// The registry warns before accepting. `exists_is_sole_warning` is true
    /// when the only warning says the target page already exists.
    Warning { exists_is_sole_warning: bool },
    /// The registry answered with error objects.
    ApiErrors,
    /// The transfer itself failed before the registry answered.
    TransportError,
    /// The registry answered with a result word this flow does not know.
    UnknownResult,
}

/// How far the flow has come for one file.
#[derive(Clone, Copy, Debug, PartialEq, Eq, Structural)]
pub enum UploadPhase {
    /// No attempt made yet beyond the first.
    Initial,
    /// One retry with the file key, ignoring warnings, was already made.
    Retried,
}

/// What to do next for this file.
#[derive(Clone, Copy, Debug, PartialEq, Eq, Structural)]
pub enum UploadAction {
    /// The file is uploaded; nothing more to do.
    Done,
    /// Upload again with the returned file key, ignoring warnings.
    RetryWithKey,
    /// Ask the human whether to retry ignoring the warnings; call again with
    /// the answer.
    ConsultHuman,
    /// Give up on this file and ask for a manual upload.
    ManualUpload,
    /// The response violates the interface contract: stop the run.
    Fatal,
}

/// Decides the next step from the phase, the classified response, and — when
/// a warning needs human judgement — the human's answer (absent until
/// asked). Success always finishes; errors of either kind always fall back
/// to manual upload; an unknown result word is always fatal; a sole
/// already-exists warning on the first attempt retries at once; any other
/// first-attempt warning asks the human and follows the answer; a warning
/// after the one retry is handed over for manual upload.
pub fn upload_decide(phase: UploadPhase, outcome: &UploadOutcome, consent: Option<bool>) -> (r:
    UploadAction)
    ensures
        r == (match *outcome {
            UploadOutcome::Success => UploadAction::Done,
            UploadOutcome::ApiErrors => UploadAction::ManualUpload,
            UploadOutcome::TransportError => UploadAction::ManualUpload,
            UploadOutcome::UnknownResult => UploadAction::Fatal,
            UploadOutcome::Warning { exists_is_sole_warning } => {
                if phase == UploadPhase::Retried {
                    UploadAction::ManualUpload
                } else if exists_is_sole_warning {
                    UploadAction::RetryWithKey
                } else {
                    match consent {
                        None => UploadAction::ConsultHuman,
                        Some(true) => UploadAction::RetryWithKey,
                        Some(false) => UploadAction::ManualUpload,
                    }
                }
            },
        }),
{
    match outcome {
        UploadOutcome::Success => UploadAction::Done,
        UploadOutcome::ApiErrors => UploadAction::ManualUpload,
        UploadOutcome::TransportError => UploadAction::ManualUpload,
        UploadOutcome::UnknownResult => UploadAction::Fatal,
        UploadOutcome::Warning { exists_is_sole_warning } => {
            if phase == UploadPhase::Retried {
                UploadAction::ManualUpload
            } else if *exists_is_sole_warning {
                UploadAction::RetryWithKey
            } else {
                match consent {
                    None => UploadAction::ConsultHuman,
                    Some(true) => UploadAction::RetryWithKey,
                    Some(false) => UploadAction::ManualUpload,
                }
            }
        },
    }
}

} // verus!
