//! The decisions a window makes when it adopts a project opened for it:
//! whether the document it holds is still the one the project was opened
//! against, which document generation follows, and whether the adopted
//! document still needs its first save.
use vstd::prelude::*;

verus! {

/// Why a window refused to adopt an opened project.
#[derive(Clone, Copy, Debug, PartialEq, Eq, Structural)]
pub enum AdoptionError {
    /// The window's document changed while the project was being opened.
    Changed,
    /// Document generations ran out.
    GenerationExhausted,
}

impl AdoptionError {
    pub fn message(self) -> (m: &'static str)
        ensures
            self == AdoptionError::Changed ==> m@ == "The document changed while opening; review those changes first"@,
            self == AdoptionError::GenerationExhausted ==> m@ == "Document generation exhausted"@,
    {
        match self {
            AdoptionError::Changed => "The document changed while opening; review those changes first",
            AdoptionError::GenerationExhausted => "Document generation exhausted",
        }
    }
}

/// The document generation a window moves to when it adopts a project
/// opened against generation `epoch` and document revision `revision`: the
/// next generation, provided the window still holds that generation and
/// revision (`current_epoch`, `current_revision`) and generations remain.
pub fn adoption_epoch(epoch: u64, revision: u64, current_epoch: u64, current_revision: u64) -> (r: Result<u64, AdoptionError>)
    ensures
        epoch != current_epoch || revision != current_revision ==> r == Err::<u64, AdoptionError>(AdoptionError::Changed),
        epoch == current_epoch && revision == current_revision && epoch == u64::MAX
            ==> r == Err::<u64, AdoptionError>(AdoptionError::GenerationExhausted),
        epoch == current_epoch && revision == current_revision && epoch < u64::MAX ==> r == Ok::<u64, AdoptionError>((epoch + 1) as u64),
{
    if epoch != current_epoch || revision != current_revision {
        return Err(AdoptionError::Changed);
    }
    match epoch.checked_add(1) {
        Some(next) => Ok(next),
        None => Err(AdoptionError::GenerationExhausted),
    }
}

/// Whether an adopted document still needs its first save: always when it
/// is a private recovery copy, and otherwise when it has no destination and
/// the opened project had none either.
pub fn adopted_unpublished(recovered: bool, has_location: bool, candidate_unpublished: bool) -> (r: bool)
    ensures
        r == (recovered || (!has_location && candidate_unpublished)),
        recovered ==> r,
{
    recovered || (!has_location && candidate_unpublished)
}

} // verus!
