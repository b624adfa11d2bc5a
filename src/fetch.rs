//! The decisions of mirroring one file: whether a local copy can stay, and
//! whether a download may replace it. The caller performs each action and
//! reports what came of it; the live path is written only by `RenameTemp`.
use vstd::prelude::*;

use crate::error::SyncError;
use crate::package::Check;

verus! {

/// Suffix of the sibling file that a download is streamed into.
pub const TEMP_SUFFIX: &'static str = ".sync.tmp";

/// Where the download of `local` is written before it is renamed into place.
pub fn temp_path(local: &str) -> (r: String)
    ensures
        r@ == local@ + TEMP_SUFFIX@,
{
    let mut p = local.to_owned();
    p.append(TEMP_SUFFIX);
    p
}

/// Where the mirroring of a file stands.
#[derive(Debug, Clone, Copy, PartialEq, Eq)]
pub enum FetchState {
    /// Waiting for the size of the local file, if there is one.
    AwaitLocal,
    /// Waiting for the digest check of the local file.
    AwaitLocalDigest,
    /// Waiting for the download into the temporary file.
    AwaitDownload,
    /// Waiting for the digest check of the temporary file.
    AwaitTempDigest,
    /// Waiting for the rename of the temporary file onto the live path.
    AwaitRename,
    /// The live path holds a verified file.
    Finished,
    /// The attempt failed; the live path was not touched.
    Failed,
}

/// What the caller observed.
#[derive(Debug, Clone, PartialEq, Eq)]
pub enum FetchEvent {
    /// The size of the local file, or `None` if it does not exist.
    LocalSize(Option<u64>),
    /// Whether the digest of the checked file matches the declared checksum.
    DigestMatches(bool),
    /// The download finished with this many bytes in the temporary file.
    Downloaded(u64),
    /// The temporary file was renamed onto the live path.
    Renamed,
    /// An operation failed.
    Failure(SyncError),
}

/// What the caller does next.
#[derive(Debug, Clone, PartialEq, Eq)]
pub enum FetchAction {
    /// Compute the digest of the local file and report whether it matches.
    HashLocal,
    /// Create the parent directories and stream the remote file into the
    /// temporary file; report the byte count.
    Download,
    /// Compute the digest of the temporary file and report whether it matches.
    HashTemp,
    /// Rename the temporary file onto the live path.
    RenameTemp,
    /// Nothing more: the file is in place.
    Done,
    /// Give up with this error.
    Abort(SyncError),
}

/// The checks of a mode, as plain values: the declared size, if any, and
/// whether the digest is checked.
pub open spec fn declared_size(c: Check) -> Option<u64> {
    match c {
        Check::Metadata => None,
        Check::RemoteSize(s) => Some(s),
        Check::Size(s) => Some(s),
        Check::Hash(s, _) => Some(s),
    }
}

/// Whether the event is one that the state waits for.
pub open spec fn accepts(state: FetchState, ev: FetchEvent) -> bool {
    match ev {
        FetchEvent::Failure(_) => !(state is Finished || state is Failed),
        FetchEvent::LocalSize(_) => state is AwaitLocal,
        FetchEvent::DigestMatches(_) => state is AwaitLocalDigest || state is AwaitTempDigest,
        FetchEvent::Downloaded(_) => state is AwaitDownload,
        FetchEvent::Renamed => state is AwaitRename,
    }
}

/// One step of the protocol: the next state and the action it asks for.
pub open spec fn fetch_step(check: Check, state: FetchState, ev: FetchEvent) -> (
    FetchState,
    FetchAction,
) {
    match ev {
        FetchEvent::Failure(e) => (FetchState::Failed, FetchAction::Abort(e)),
        FetchEvent::LocalSize(None) => (FetchState::AwaitDownload, FetchAction::Download),
        FetchEvent::LocalSize(Some(n)) => match check {
            Check::Hash(s, _) => if n == s {
                (FetchState::AwaitLocalDigest, FetchAction::HashLocal)
            } else {
                (FetchState::AwaitDownload, FetchAction::Download)
            },
            Check::Size(s) => if n == s {
                (FetchState::Finished, FetchAction::Done)
            } else {
                (FetchState::AwaitDownload, FetchAction::Download)
            },
            _ => (FetchState::Finished, FetchAction::Done),
        },
        FetchEvent::DigestMatches(ok) => if state is AwaitLocalDigest {
            if ok {
                (FetchState::Finished, FetchAction::Done)
            } else {
                (FetchState::AwaitDownload, FetchAction::Download)
            }
        } else {
            if ok {
                (FetchState::AwaitRename, FetchAction::RenameTemp)
            } else {
                (FetchState::Failed, FetchAction::Abort(SyncError::ChecksumMismatch))
            }
        },
        FetchEvent::Downloaded(n) => match declared_size(check) {
            None => (FetchState::AwaitRename, FetchAction::RenameTemp),
            Some(s) => if n != s {
                (
                    FetchState::Failed,
                    FetchAction::Abort(SyncError::SizeMismatch { expected: s, actual: n }),
                )
            } else if check is Hash {
                (FetchState::AwaitTempDigest, FetchAction::HashTemp)
            } else {
                (FetchState::AwaitRename, FetchAction::RenameTemp)
            },
        },
        FetchEvent::Renamed => (FetchState::Finished, FetchAction::Done),
    }
}

/// The mirroring of one file under one check.
pub struct Fetcher<'c> {
    pub check: Check<'c>,
    pub state: FetchState,
}

impl<'c> Fetcher<'c> {
    /// Starts in `AwaitLocal`: the caller first reports the local file's size.
    pub fn new(check: Check<'c>) -> (r: Fetcher<'c>)
        ensures
            r.check == check,
            r.state == FetchState::AwaitLocal,
    {
        Fetcher { check, state: FetchState::AwaitLocal }
    }

    /// Whether `ev` is an event that the current state waits for.
    pub fn accepts(&self, ev: &FetchEvent) -> (r: bool)
        ensures
            r == accepts(self.state, *ev),
    {
        match ev {
            FetchEvent::Failure(_) => match self.state {
                FetchState::Finished | FetchState::Failed => false,
                _ => true,
            },
            FetchEvent::LocalSize(_) => matches!(self.state, FetchState::AwaitLocal),
            FetchEvent::DigestMatches(_) => matches!(
                self.state,
                FetchState::AwaitLocalDigest | FetchState::AwaitTempDigest
            ),
            FetchEvent::Downloaded(_) => matches!(self.state, FetchState::AwaitDownload),
            FetchEvent::Renamed => matches!(self.state, FetchState::AwaitRename),
        }
    }

    /// Takes the caller's report and says what to do next.
    pub fn step(&mut self, ev: FetchEvent) -> (r: FetchAction)
        requires
            accepts(old(self).state, ev),
        ensures
            final(self).check == old(self).check,
            (final(self).state, r) == fetch_step(old(self).check, old(self).state, ev),
    {
        let (state, action) = match ev {
            FetchEvent::Failure(e) => (FetchState::Failed, FetchAction::Abort(e)),
            FetchEvent::LocalSize(None) => (FetchState::AwaitDownload, FetchAction::Download),
            FetchEvent::LocalSize(Some(n)) => match self.check {
                Check::Hash(s, _) => if n == s {
                    (FetchState::AwaitLocalDigest, FetchAction::HashLocal)
                } else {
                    (FetchState::AwaitDownload, FetchAction::Download)
                },
                Check::Size(s) => if n == s {
                    (FetchState::Finished, FetchAction::Done)
                } else {
                    (FetchState::AwaitDownload, FetchAction::Download)
                },
                _ => (FetchState::Finished, FetchAction::Done),
            },
            FetchEvent::DigestMatches(ok) => match self.state {
                FetchState::AwaitLocalDigest => if ok {
                    (FetchState::Finished, FetchAction::Done)
                } else {
                    (FetchState::AwaitDownload, FetchAction::Download)
                },
                _ => if ok {
                    (FetchState::AwaitRename, FetchAction::RenameTemp)
                } else {
                    (FetchState::Failed, FetchAction::Abort(SyncError::ChecksumMismatch))
                },
            },
            FetchEvent::Downloaded(n) => match self.check {
                Check::Metadata => (FetchState::AwaitRename, FetchAction::RenameTemp),
                Check::RemoteSize(s) | Check::Size(s) => if n != s {
                    (
                        FetchState::Failed,
                        FetchAction::Abort(SyncError::SizeMismatch { expected: s, actual: n }),
                    )
                } else {
                    (FetchState::AwaitRename, FetchAction::RenameTemp)
                },
                Check::Hash(s, _) => if n != s {
                    (
                        FetchState::Failed,
                        FetchAction::Abort(SyncError::SizeMismatch { expected: s, actual: n }),
                    )
                } else {
                    (FetchState::AwaitTempDigest, FetchAction::HashTemp)
                },
            },
            FetchEvent::Renamed => (FetchState::Finished, FetchAction::Done),
        };
        self.state = state;
        action
    }
}

/// Atomicity of a fetch: the live path is written only by `RenameTemp`,
/// which is asked for only once the download has passed every check of its
/// mode; every failure, and every failed check, ends the attempt without it.
pub proof fn lemma_fetch_atomic(check: Check, state: FetchState, ev: FetchEvent)
    requires
        accepts(state, ev),
    ensures
        ev is Failure ==> fetch_step(check, state, ev).0 is Failed && fetch_step(
            check,
            state,
            ev,
        ).1 is Abort,
        fetch_step(check, state, ev).1 is RenameTemp ==> match ev {
            FetchEvent::Downloaded(n) => state is AwaitDownload && (declared_size(check) matches Some(s)
                ==> n == s) && !(check is Hash),
            FetchEvent::DigestMatches(ok) => state is AwaitTempDigest && ok,
            _ => false,
        },
        fetch_step(check, state, ev).0 is Failed ==> fetch_step(check, state, ev).1 is Abort,
{
}

} // verus!
