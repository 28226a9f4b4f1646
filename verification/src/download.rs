use vstd::prelude::*;

use crate::text::{hex, push_hex};

verus! {

/// The directory in which downloaded files are kept.
pub const DOWNLOAD_DIR: &'static str = ".aflak-downloads";

/// How long to wait between two looks at a file that another download is
/// writing, in milliseconds.
pub const WAIT_MILLIS: u64 = 500;

/// Where a cached download of a URL stands.
#[derive(Copy, Clone, Debug, PartialEq, Eq, Structural)]
pub enum DownloadState {
    /// Waiting to learn whether the download directory exists.
    AwaitDirExists,
    /// Waiting to learn whether the download directory could be made.
    AwaitDirCreated,
    /// Waiting to learn whether the download path is a directory.
    AwaitIsDir,
    /// Waiting to learn whether the file is already in the cache.
    AwaitFile,
    /// Waiting to learn whether the file is being downloaded already.
    AwaitPartial,
    /// Another download is writing the file: waiting to learn whether it is
    /// there now.
    Waiting,
    /// Waiting for the pause between two looks to end.
    Sleeping,
    /// Waiting to learn whether the partial file could be made.
    AwaitPartialCreated,
    /// Waiting to learn whether the request succeeded.
    AwaitFetched,
    /// Waiting to learn whether the body could be written.
    AwaitCopied,
    /// Waiting to learn whether the partial file could be renamed.
    AwaitRenamed,
    /// Nothing more to do.
    Finished,
}

/// How a download ends.
#[derive(Copy, Clone, Debug, PartialEq, Eq, Structural)]
pub enum DownloadOutcome {
    /// The file is in the cache.
    Ready,
    /// The download directory could not be made.
    CreateDirFailed,
    /// The download path is not a directory.
    NotDir,
    /// The partial file could not be made.
    CreatePartialFailed,
    /// The request failed.
    FetchFailed,
    /// The body could not be written.
    CopyFailed,
    /// The partial file could not be renamed.
    RenameFailed,
}

/// What to do next; each action but `Finish` is answered yes or no.
#[derive(Copy, Clone, Debug, PartialEq, Eq, Structural)]
pub enum DownloadAction {
    /// Does the download directory exist?
    CheckDirExists,
    /// Make the download directory; did it work?
    CreateDir,
    /// Is the download path a directory?
    CheckIsDir,
    /// Is the file in the cache?
    CheckFile,
    /// Is the partial file there?
    CheckPartial,
    /// Pause for `WAIT_MILLIS` (always answered yes).
    Sleep,
    /// Make the partial file; did it work?
    CreatePartial,
    /// Send the request; did it succeed?
    Fetch,
    /// Write the body into the partial file; did it work?
    CopyBody,
    /// Rename the partial file to the cached file; did it work?
    Rename,
    /// Stop, with this outcome.
    Finish(DownloadOutcome),
}

/// The state after answering `ok` to the action asked in state `s`, and the
/// next action.
pub open spec fn next_step(s: DownloadState, ok: bool) -> (DownloadState, DownloadAction) {
    match s {
        DownloadState::AwaitDirExists => if ok {
            (DownloadState::AwaitIsDir, DownloadAction::CheckIsDir)
        } else {
            (DownloadState::AwaitDirCreated, DownloadAction::CreateDir)
        },
        DownloadState::AwaitDirCreated => if ok {
            (DownloadState::AwaitIsDir, DownloadAction::CheckIsDir)
        } else {
            (DownloadState::Finished, DownloadAction::Finish(DownloadOutcome::CreateDirFailed))
        },
        DownloadState::AwaitIsDir => if ok {
            (DownloadState::AwaitFile, DownloadAction::CheckFile)
        } else {
            (DownloadState::Finished, DownloadAction::Finish(DownloadOutcome::NotDir))
        },
        DownloadState::AwaitFile => if ok {
            (DownloadState::Finished, DownloadAction::Finish(DownloadOutcome::Ready))
        } else {
            (DownloadState::AwaitPartial, DownloadAction::CheckPartial)
        },
        DownloadState::AwaitPartial => if ok {
            (DownloadState::Waiting, DownloadAction::CheckFile)
        } else {
            (DownloadState::AwaitPartialCreated, DownloadAction::CreatePartial)
        },
        DownloadState::Waiting => if ok {
            (DownloadState::Finished, DownloadAction::Finish(DownloadOutcome::Ready))
        } else {
            (DownloadState::Sleeping, DownloadAction::Sleep)
        },
        DownloadState::Sleeping => (DownloadState::Waiting, DownloadAction::CheckFile),
        DownloadState::AwaitPartialCreated => if ok {
            (DownloadState::AwaitFetched, DownloadAction::Fetch)
        } else {
            (DownloadState::Finished, DownloadAction::Finish(DownloadOutcome::CreatePartialFailed))
        },
        DownloadState::AwaitFetched => if ok {
            (DownloadState::AwaitCopied, DownloadAction::CopyBody)
        } else {
            (DownloadState::Finished, DownloadAction::Finish(DownloadOutcome::FetchFailed))
        },
        DownloadState::AwaitCopied => if ok {
            (DownloadState::AwaitRenamed, DownloadAction::Rename)
        } else {
            (DownloadState::Finished, DownloadAction::Finish(DownloadOutcome::CopyFailed))
        },
        DownloadState::AwaitRenamed => if ok {
            (DownloadState::Finished, DownloadAction::Finish(DownloadOutcome::Ready))
        } else {
            (DownloadState::Finished, DownloadAction::Finish(DownloadOutcome::RenameFailed))
        },
        DownloadState::Finished => (DownloadState::Finished, DownloadAction::Finish(DownloadOutcome::Ready)),
    }
}

/// The first state of a download and its first action.
pub fn start() -> (r: (DownloadState, DownloadAction))
    ensures
        r == (DownloadState::AwaitDirExists, DownloadAction::CheckDirExists),
{
    (DownloadState::AwaitDirExists, DownloadAction::CheckDirExists)
}

/// Answer the action asked in `state` with `ok`: the next state and action.
pub fn step(state: DownloadState, ok: bool) -> (r: (DownloadState, DownloadAction))
    requires
        state != DownloadState::Finished,
    ensures
        r == next_step(state, ok),
{
    match state {
        DownloadState::AwaitDirExists => if ok {
            (DownloadState::AwaitIsDir, DownloadAction::CheckIsDir)
        } else {
            (DownloadState::AwaitDirCreated, DownloadAction::CreateDir)
        },
        DownloadState::AwaitDirCreated => if ok {
            (DownloadState::AwaitIsDir, DownloadAction::CheckIsDir)
        } else {
            (DownloadState::Finished, DownloadAction::Finish(DownloadOutcome::CreateDirFailed))
        },
        DownloadState::AwaitIsDir => if ok {
            (DownloadState::AwaitFile, DownloadAction::CheckFile)
        } else {
            (DownloadState::Finished, DownloadAction::Finish(DownloadOutcome::NotDir))
        },
        DownloadState::AwaitFile => if ok {
            (DownloadState::Finished, DownloadAction::Finish(DownloadOutcome::Ready))
        } else {
            (DownloadState::AwaitPartial, DownloadAction::CheckPartial)
        },
        DownloadState::AwaitPartial => if ok {
            (DownloadState::Waiting, DownloadAction::CheckFile)
        } else {
            (DownloadState::AwaitPartialCreated, DownloadAction::CreatePartial)
        },
        DownloadState::Waiting => if ok {
            (DownloadState::Finished, DownloadAction::Finish(DownloadOutcome::Ready))
        } else {
            (DownloadState::Sleeping, DownloadAction::Sleep)
        },
        DownloadState::Sleeping => (DownloadState::Waiting, DownloadAction::CheckFile),
        DownloadState::AwaitPartialCreated => if ok {
            (DownloadState::AwaitFetched, DownloadAction::Fetch)
        } else {
            (DownloadState::Finished, DownloadAction::Finish(DownloadOutcome::CreatePartialFailed))
        },
        DownloadState::AwaitFetched => if ok {
            (DownloadState::AwaitCopied, DownloadAction::CopyBody)
        } else {
            (DownloadState::Finished, DownloadAction::Finish(DownloadOutcome::FetchFailed))
        },
        DownloadState::AwaitCopied => if ok {
            (DownloadState::AwaitRenamed, DownloadAction::Rename)
        } else {
            (DownloadState::Finished, DownloadAction::Finish(DownloadOutcome::CopyFailed))
        },
        DownloadState::AwaitRenamed => if ok {
            (DownloadState::Finished, DownloadAction::Finish(DownloadOutcome::Ready))
        } else {
            (DownloadState::Finished, DownloadAction::Finish(DownloadOutcome::RenameFailed))
        },
        DownloadState::Finished => (DownloadState::Finished, DownloadAction::Finish(DownloadOutcome::Ready)),
    }
}

/// A download finishes exactly when its state becomes `Finished`.
pub proof fn lemma_finish_ends(s: DownloadState, ok: bool)
    ensures
        (next_step(s, ok).1 is Finish) <==> (next_step(s, ok).0 == DownloadState::Finished),
{
}

/// A download is reported ready only when the cached file was seen, or the
/// freshly downloaded file was renamed into the cache.
pub proof fn lemma_ready_only_with_file(s: DownloadState, ok: bool)
    requires
        s != DownloadState::Finished,
        next_step(s, ok).1 == DownloadAction::Finish(DownloadOutcome::Ready),
    ensures
        ok,
        s == DownloadState::AwaitFile || s == DownloadState::Waiting || s == DownloadState::AwaitRenamed,
{
}

/// A file is fetched only after its partial file was made, and renamed into
/// the cache only after its body was written.
pub proof fn lemma_fetch_order(s: DownloadState, ok: bool)
    requires
        s != DownloadState::Finished,
    ensures
        next_step(s, ok).1 == DownloadAction::Fetch ==> s == DownloadState::AwaitPartialCreated && ok,
        next_step(s, ok).1 == DownloadAction::Rename ==> s == DownloadState::AwaitCopied && ok,
        next_step(s, ok).1 == DownloadAction::CreatePartial ==> s == DownloadState::AwaitPartial && !ok,
{
}

/// The hash of a text with std's `DefaultHasher` as made by `new` or
/// `default` (which std documents to be the same for every such hasher: it
/// is not seeded per process).
pub uninterp spec fn default_hash(s: Seq<char>) -> u64;

/// The hash of a URL, from std's `BuildHasher::hash_one` with a default
/// `DefaultHasher`: `default_hash` of the URL. Which number that is, std
/// leaves unspecified, and nothing more is stated.
#[verifier::external_body]
fn url_hash(url: &str) -> (h: u64)
    ensures
        h == default_hash(url@),
{
    let builder = std::hash::BuildHasherDefault::<std::collections::hash_map::DefaultHasher>::default();
    std::hash::BuildHasher::hash_one(&builder, url)
}

/// The names, inside `DOWNLOAD_DIR`, of the cached file for `url` and of the
/// partial file that a download of it writes: the hash of the URL in
/// hexadecimal, and the same followed by ".download".
pub fn cache_names(url: &str) -> (r: (String, String))
    ensures
        r.0@ == hex(default_hash(url@) as nat),
        r.1@ == r.0@ + ".download"@,
{
    let h = url_hash(url);
    let mut name = String::new();
    push_hex(&mut name, h);
    let mut partial = name.clone();
    partial.append(".download");
    (name, partial)
}

} // verus!
