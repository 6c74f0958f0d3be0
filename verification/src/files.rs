//! Which files are accepted, and the files that are owned.

use vstd::prelude::*;

use crate::paths::{parent_of, NativePath};

verus! {

/// Why a file is not accepted as a recovery file.
#[derive(Debug, Clone, Copy, PartialEq, Eq, Structural)]
pub enum FileError {
    NotRegular,
    OtherUser,
    WritableByOthers,
}

/// What is known of a file that was opened.
#[derive(Debug, Clone, Copy, PartialEq, Eq, Structural)]
pub struct FileFacts {
    pub regular: bool,
    pub owner: u32,
    pub mode: u32,
}

/// Permission bits by which the group or everybody can write.
pub const FOREIGN_WRITE: u32 = 0o022;

/// What is wrong with an opened file: it must be a regular file of this user that nobody else
/// can write.
pub open spec fn file_fault(facts: FileFacts, user: u32) -> Option<FileError> {
    if !facts.regular {
        Some(FileError::NotRegular)
    } else if facts.owner != user {
        Some(FileError::OtherUser)
    } else if facts.mode & FOREIGN_WRITE != 0 {
        Some(FileError::WritableByOthers)
    } else {
        None
    }
}

/// Whether a path may be opened, given whether it is a regular file itself, without following
/// a link.
pub fn open_regular(regular: bool) -> (r: Result<(), FileError>)
    ensures
        r == (if regular {
            Ok::<(), FileError>(())
        } else {
            Err(FileError::NotRegular)
        }),
{
    if regular {
        Ok(())
    } else {
        Err(FileError::NotRegular)
    }
}

/// Whether a file that was opened is accepted.
pub fn accept_opened(facts: FileFacts, user: u32) -> (r: Result<(), FileError>)
    ensures
        match r {
            Ok(()) => file_fault(facts, user) is None,
            Err(e) => file_fault(facts, user) == Some(e),
        },
{
    if !facts.regular {
        return Err(FileError::NotRegular);
    }
    if facts.owner != user {
        return Err(FileError::OtherUser);
    }
    if facts.mode & FOREIGN_WRITE != 0 {
        return Err(FileError::WritableByOthers);
    }
    Ok(())
}

/// Where locks deny reads too, one byte is locked that lies beyond the data, so that separate
/// readers stay usable while a file is owned.
pub const LOCK_OFFSET: u64 = 0x7fff_ffff_ffff_fffe;

/// The two halves of the offset of the locked byte.
#[derive(Debug, Clone, Copy, PartialEq, Eq, Structural)]
pub struct LockByte {
    pub low: u32,
    pub high: u32,
}

/// The byte that is locked in a file of this length; none where the data reach it.
pub fn lock_byte(length: u64) -> (r: Option<LockByte>)
    ensures
        r is Some <==> length < LOCK_OFFSET,
        r matches Some(byte) ==> byte.high * 0x1_0000_0000 + byte.low == LOCK_OFFSET && length
            < byte.high * 0x1_0000_0000 + byte.low,
{
    if length >= LOCK_OFFSET {
        return None;
    }
    Some(
        LockByte {
            low: (LOCK_OFFSET % 0x1_0000_0000) as u32,
            high: (LOCK_OFFSET / 0x1_0000_0000) as u32,
        },
    )
}

/// A published or claimed file, with the lock by which it is owned. The lock stands for the open
/// file that holds it; several owners of one file share it.
#[derive(Debug)]
pub struct OwnedFile {
    pub path: NativePath,
    pub lock: u64,
}

/// What an owned file stands for.
#[verifier::ext_equal]
pub struct OwnedView {
    pub path: Seq<u8>,
    pub lock: u64,
}

impl View for OwnedFile {
    type V = OwnedView;

    open spec fn view(&self) -> OwnedView {
        OwnedView { path: self.path@, lock: self.lock }
    }
}

impl Clone for OwnedFile {
    fn clone(&self) -> (r: OwnedFile)
        ensures
            r@ == self@,
    {
        OwnedFile { path: self.path.clone(), lock: self.lock }
    }
}

pub open spec fn owned_views(files: Seq<OwnedFile>) -> Seq<OwnedView> {
    files.map_values(|f: OwnedFile| f@)
}

pub open spec fn owned_option(file: Option<OwnedFile>) -> Option<OwnedView> {
    match file {
        Some(f) => Some(f@),
        None => None,
    }
}

/// What went wrong with one file.
#[derive(Debug)]
pub enum Fault {
    /// What the system said.
    System(String),
    /// A temporary file could not be locked.
    Lock(String),
    /// The path names another file than the one that is owned.
    Replaced,
    /// The path of a temporary file names another file.
    TemporaryReplaced,
    /// A recovered original changed its length while it was copied.
    LengthChanged,
}

/// What a fault stands for.
pub enum FaultView {
    System(Seq<char>),
    Lock(Seq<char>),
    Replaced,
    TemporaryReplaced,
    LengthChanged,
}

impl View for Fault {
    type V = FaultView;

    open spec fn view(&self) -> FaultView {
        match self {
            Fault::System(detail) => FaultView::System(detail@),
            Fault::Lock(detail) => FaultView::Lock(detail@),
            Fault::Replaced => FaultView::Replaced,
            Fault::TemporaryReplaced => FaultView::TemporaryReplaced,
            Fault::LengthChanged => FaultView::LengthChanged,
        }
    }
}

/// The verdict on an owned file, given whether its path still names the file that is owned.
pub open spec fn check_fault(seen: Result<bool, Seq<char>>) -> Option<FaultView> {
    match seen {
        Ok(true) => None,
        Ok(false) => Some(FaultView::Replaced),
        Err(detail) => Some(FaultView::System(detail)),
    }
}

pub open spec fn seen_view(seen: Result<bool, String>) -> Result<bool, Seq<char>> {
    match seen {
        Ok(same) => Ok(same),
        Err(detail) => Err(detail@),
    }
}

/// The verdict on an owned file. `seen` is whether its path names the file that is owned, as far
/// as the path could be opened as a regular recovery file.
pub fn check(seen: Result<bool, String>) -> (r: Result<(), Fault>)
    ensures
        match r {
            Ok(()) => check_fault(seen_view(seen)) is None,
            Err(fault) => check_fault(seen_view(seen)) == Some(fault@),
        },
{
    match seen {
        Ok(same) => if same {
            Ok(())
        } else {
            Err(Fault::Replaced)
        },
        Err(detail) => Err(Fault::System(detail)),
    }
}

/// A recovered file: the original until its copy is durable, and the copy once it is published.
#[derive(Debug)]
pub struct RecoveredSource {
    pub original: Option<OwnedFile>,
    /// Recorded before the directory is synced, so that a failed sync keeps it owned.
    pub archive: Option<OwnedFile>,
}

/// What a recovered file stands for.
#[verifier::ext_equal]
pub struct SourceView {
    pub original: Option<OwnedView>,
    pub archive: Option<OwnedView>,
}

impl View for RecoveredSource {
    type V = SourceView;

    open spec fn view(&self) -> SourceView {
        SourceView { original: owned_option(self.original), archive: owned_option(self.archive) }
    }
}

pub open spec fn source_views(sources: Seq<RecoveredSource>) -> Seq<SourceView> {
    sources.map_values(|s: RecoveredSource| s@)
}

/// A file has a directory that it lies in.
pub open spec fn placed(file: OwnedView) -> bool {
    parent_of(file.path) is Some
}

/// A recovered file is never lost: the original or its copy is owned.
pub open spec fn source_ok(source: SourceView) -> bool {
    &&& source.original is Some || source.archive is Some
    &&& source.original is Some ==> placed(source.original->0)
    &&& source.archive is Some ==> placed(source.archive->0)
}

/// Law: a file is accepted exactly when it is a regular one of this user, and neither its group
/// nor everybody can write it. What is wrong is told in this order; who else can read it does not
/// matter.
pub proof fn law_accepted_files(facts: FileFacts, user: u32)
    ensures
        ({
            let mode = facts.mode;
            let shared = mode & 0o020 != 0 || mode & 0o002 != 0;
            &&& file_fault(facts, user) is None <==> facts.regular && facts.owner == user && !shared
            &&& file_fault(facts, user) == Some(FileError::NotRegular) <==> !facts.regular
            &&& file_fault(facts, user) == Some(FileError::OtherUser) <==> facts.regular
                && facts.owner != user
            &&& file_fault(facts, user) == Some(FileError::WritableByOthers) <==> facts.regular
                && facts.owner == user && shared
        }),
{
    let mode = facts.mode;
    assert((mode & 0o022u32 != 0) <==> (mode & 0o020u32 != 0 || mode & 0o002u32 != 0))
        by (bit_vector);
}

/// Law: an owned file passes the check exactly when its path was seen to name it. What the system
/// said otherwise is told.
pub proof fn law_check_of_owned_files(seen: Result<bool, Seq<char>>)
    ensures
        check_fault(seen) is None <==> seen == Ok::<bool, Seq<char>>(true),
        seen == Ok::<bool, Seq<char>>(false) ==> check_fault(seen) == Some(FaultView::Replaced),
        seen matches Err(detail) ==> check_fault(seen) == Some(FaultView::System(detail)),
{
}

} // verus!
