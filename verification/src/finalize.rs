//! Moving a finished file from the intermediate directory to its place,
//! with the checks that guard the copy.

use vstd::prelude::*;

verus! {

/// The SeaHash checksum of a run of bytes.
pub uninterp spec fn seahash_of(bytes: Seq<u8>) -> u64;

/// Calls `seahash::hash`. The checksum is a function of the bytes alone;
/// nothing else is claimed of it.
#[verifier::external_body]
pub(crate) fn checksum(bytes: &[u8]) -> (sum: u64)
    ensures
        sum == seahash_of(bytes@),
{
    seahash::hash(bytes)
}

/// Why a finished file could not be put in its place.
#[derive(Copy, Clone, Debug, PartialEq, Eq, Structural)]
pub enum FinalizeError {
    /// The copy reported another number of bytes than the staged file has.
    SizeMismatch { staged: u64, copied: u64 },
    /// The two files' checksums differ.
    ChecksumMismatch { staged: u64, copied: u64 },
    /// Reading the staged file's size, or the copy itself, failed.
    CopyFailed,
    /// The staged file could not be deleted.
    DeleteFailed,
}

/// Where the finalizer stands for one file.
#[derive(Copy, Clone, Debug, PartialEq, Eq, Structural)]
pub enum FinalizeState {
    /// Nothing done yet: the staged file's size is wanted.
    Start,
    /// The size is known: the copy is wanted.
    Sized { staged: u64 },
    /// The copy has the right size: the two files' contents are wanted.
    Copied,
    /// The copy is verified: the staged file is to be deleted.
    Verified,
    Done,
    Failed(FinalizeError),
}

/// What the caller does next.
#[derive(Copy, Clone, Debug, PartialEq, Eq, Structural)]
pub enum FinalizeAction {
    ReadStagedSize,
    Copy,
    ReadBoth,
    DeleteStaged,
    Rest,
}

/// The verdict on a copy's size.
pub open spec fn size_verdict(staged: u64, copied: u64) -> Result<(), FinalizeError> {
    if staged == copied {
        Ok(())
    } else {
        Err(FinalizeError::SizeMismatch { staged, copied })
    }
}

/// The verdict on two checksums.
pub open spec fn checksum_verdict(staged: u64, copied: u64) -> Result<(), FinalizeError> {
    if staged == copied {
        Ok(())
    } else {
        Err(FinalizeError::ChecksumMismatch { staged, copied })
    }
}

/// Checks the number of bytes that the copy reported against the staged
/// file's size.
pub fn check_copy_size(staged: u64, copied: u64) -> (verdict: Result<(), FinalizeError>)
    ensures
        verdict == size_verdict(staged, copied),
{
    if staged == copied {
        Ok(())
    } else {
        Err(FinalizeError::SizeMismatch { staged, copied })
    }
}

/// Checks two checksums against each other.
pub fn check_checksums(staged: u64, copied: u64) -> (verdict: Result<(), FinalizeError>)
    ensures
        verdict == checksum_verdict(staged, copied),
{
    if staged == copied {
        Ok(())
    } else {
        Err(FinalizeError::ChecksumMismatch { staged, copied })
    }
}

/// Checks the contents of the copy against those of the staged file by
/// their checksums.
pub fn check_contents(staged: &[u8], copied: &[u8]) -> (verdict: Result<(), FinalizeError>)
    ensures
        verdict == checksum_verdict(seahash_of(staged@), seahash_of(copied@)),
{
    check_checksums(checksum(staged), checksum(copied))
}

/// The state after the staged file's size was read.
pub open spec fn after_size(state: FinalizeState, staged: u64) -> FinalizeState {
    match state {
        FinalizeState::Start => FinalizeState::Sized { staged },
        _ => state,
    }
}

/// The state after the copy reported its byte count: a wrong count fails,
/// a right one asks for the checksums where the video was re-encoded and
/// goes on to the deletion where it was not.
pub open spec fn after_copy(state: FinalizeState, transcoded: bool, copied: u64) -> FinalizeState {
    match state {
        FinalizeState::Sized { staged } => match size_verdict(staged, copied) {
            Ok(_) => if transcoded {
                FinalizeState::Copied
            } else {
                FinalizeState::Verified
            },
            Err(e) => FinalizeState::Failed(e),
        },
        _ => state,
    }
}

/// The state after both checksums are known.
pub open spec fn after_checksums(state: FinalizeState, staged: u64, copied: u64) -> FinalizeState {
    match state {
        FinalizeState::Copied => match checksum_verdict(staged, copied) {
            Ok(_) => FinalizeState::Verified,
            Err(e) => FinalizeState::Failed(e),
        },
        _ => state,
    }
}

/// The state after the staged file was deleted.
pub open spec fn after_delete(state: FinalizeState) -> FinalizeState {
    match state {
        FinalizeState::Verified => FinalizeState::Done,
        _ => state,
    }
}

/// The state after an operation on the files failed: reading the size and
/// copying fail as a copy, deleting fails as a deletion.
pub open spec fn after_io_failure(state: FinalizeState) -> FinalizeState {
    match state {
        FinalizeState::Start => FinalizeState::Failed(FinalizeError::CopyFailed),
        FinalizeState::Sized { .. } => FinalizeState::Failed(FinalizeError::CopyFailed),
        FinalizeState::Copied => FinalizeState::Failed(FinalizeError::CopyFailed),
        FinalizeState::Verified => FinalizeState::Failed(FinalizeError::DeleteFailed),
        _ => state,
    }
}

/// What to do in a state.
pub open spec fn finalize_action_in(state: FinalizeState) -> FinalizeAction {
    match state {
        FinalizeState::Start => FinalizeAction::ReadStagedSize,
        FinalizeState::Sized { .. } => FinalizeAction::Copy,
        FinalizeState::Copied => FinalizeAction::ReadBoth,
        FinalizeState::Verified => FinalizeAction::DeleteStaged,
        _ => FinalizeAction::Rest,
    }
}

impl FinalizeState {
    pub open spec fn is_final(self) -> bool {
        self is Done || self is Failed
    }

    /// Tells whether the finalizer has ended.
    pub fn has_ended(self) -> (ended: bool)
        ensures
            ended == self.is_final(),
    {
        match self {
            FinalizeState::Done => true,
            FinalizeState::Failed(_) => true,
            _ => false,
        }
    }

    /// What the caller does next.
    pub fn action(self) -> (action: FinalizeAction)
        ensures
            action == finalize_action_in(self),
    {
        match self {
            FinalizeState::Start => FinalizeAction::ReadStagedSize,
            FinalizeState::Sized { .. } => FinalizeAction::Copy,
            FinalizeState::Copied => FinalizeAction::ReadBoth,
            FinalizeState::Verified => FinalizeAction::DeleteStaged,
            _ => FinalizeAction::Rest,
        }
    }

    /// Takes the staged file's size into account.
    pub fn size_read(self, staged: u64) -> (next: FinalizeState)
        ensures
            next == after_size(self, staged),
    {
        match self {
            FinalizeState::Start => FinalizeState::Sized { staged },
            _ => self,
        }
    }

    /// Takes the copy's byte count into account.
    pub fn copy_done(self, transcoded: bool, copied: u64) -> (next: FinalizeState)
        ensures
            next == after_copy(self, transcoded, copied),
    {
        match self {
            FinalizeState::Sized { staged } => match check_copy_size(staged, copied) {
                Ok(_) => if transcoded {
                    FinalizeState::Copied
                } else {
                    FinalizeState::Verified
                },
                Err(e) => FinalizeState::Failed(e),
            },
            _ => self,
        }
    }

    /// Takes the two checksums into account.
    pub fn checksums_known(self, staged: u64, copied: u64) -> (next: FinalizeState)
        ensures
            next == after_checksums(self, staged, copied),
    {
        match self {
            FinalizeState::Copied => match check_checksums(staged, copied) {
                Ok(_) => FinalizeState::Verified,
                Err(e) => FinalizeState::Failed(e),
            },
            _ => self,
        }
    }

    /// Takes the contents of both files into account.
    pub fn contents_read(self, staged: &[u8], copied: &[u8]) -> (next: FinalizeState)
        ensures
            next == after_checksums(self, seahash_of(staged@), seahash_of(copied@)),
    {
        match self {
            FinalizeState::Copied => self.checksums_known(checksum(staged), checksum(copied)),
            _ => self,
        }
    }

    /// Takes the deletion of the staged file into account.
    pub fn deleted(self) -> (next: FinalizeState)
        ensures
            next == after_delete(self),
    {
        match self {
            FinalizeState::Verified => FinalizeState::Done,
            _ => self,
        }
    }

    /// Takes a failed operation on the files into account.
    pub fn io_failed(self) -> (next: FinalizeState)
        ensures
            next == after_io_failure(self),
    {
        match self {
            FinalizeState::Start => FinalizeState::Failed(FinalizeError::CopyFailed),
            FinalizeState::Sized { .. } => FinalizeState::Failed(FinalizeError::CopyFailed),
            FinalizeState::Copied => FinalizeState::Failed(FinalizeError::CopyFailed),
            FinalizeState::Verified => FinalizeState::Failed(FinalizeError::DeleteFailed),
            _ => self,
        }
    }
}

/// A copy whose byte count differs from the staged size fails at once,
/// whatever was re-encoded, and the staged file is never deleted after it.
pub proof fn lemma_size_mismatch_is_fatal(staged: u64, copied: u64, transcoded: bool)
    requires
        staged != copied,
    ensures
        after_copy(FinalizeState::Sized { staged }, transcoded, copied) == FinalizeState::Failed(
            FinalizeError::SizeMismatch { staged, copied },
        ),
        finalize_action_in(after_copy(FinalizeState::Sized { staged }, transcoded, copied))
            == FinalizeAction::Rest,
{
}

} // verus!
