//! A write or a close in progress: its plan, how far it has come, what it asks of the file
//! system and what comes back.

use vstd::prelude::*;

use crate::files::{Fault, FaultView};
use crate::paths::{path_views, NativePath};
use crate::snapshot::{Snapshot, SnapshotView};

verus! {

/// Steps of the removal of one file.
#[derive(Debug, Clone, Copy, PartialEq, Eq, Structural)]
pub enum RemoveStep {
    /// Whether the file is there at all.
    Inspect,
    /// Whether it is the file that is owned.
    Check,
    Unlink,
    /// Syncing its directory, also after an earlier unlink.
    Sync,
}

/// Steps of the copying of one recovered original.
#[derive(Debug, Clone, Copy, PartialEq, Eq, Structural)]
pub enum ArchiveStep {
    /// The original is gone: whether the copy is still the one that is owned.
    Verify,
    /// Whether the original is the file that is owned.
    Examine,
    Copy,
    Flush,
    /// Whether the original still is the file that is owned.
    Recheck,
    Lock,
    /// Whether the temporary file is the one that was locked.
    Identify(u64),
    Persist(u64),
    /// Whether the published copy is the file that is owned.
    Confirm,
    Sync,
}

/// Steps of the publication of a snapshot.
#[derive(Debug, Clone, Copy, PartialEq, Eq, Structural)]
pub enum PublishStep {
    /// Whether the current file, which is to be replaced, is the file that is owned.
    Current,
    Stage,
    Flush,
    Lock,
    /// Whether the temporary file is the one that was locked.
    Identify(u64),
    /// Whether the current file still is the file that is owned.
    Previous(u64),
    Persist(u64),
}

/// How far a write or a close has come.
#[derive(Debug, Clone, Copy, PartialEq, Eq, Structural)]
pub enum Stage {
    /// Recovered originals are copied, each of them before anything is consumed.
    Archive(usize, ArchiveStep),
    /// The snapshot is published in the directory of this index.
    Publish(usize, PublishStep),
    /// The directory of the published snapshot is synced.
    Settle,
    /// The owned file before this index is removed.
    Remove(usize, RemoveStep),
    /// The last recovered copy is removed.
    Retire(RemoveStep),
}

/// What a write is to do.
#[derive(Debug)]
pub struct WritePlan {
    /// The snapshot with its original resolved.
    pub snapshot: Snapshot,
    pub header: Vec<u8>,
    pub directories: Vec<NativePath>,
    pub suffix: String,
    /// Whether a file of another name is created, in place of replacing the current one.
    pub migrate: bool,
    /// The directory that may be created.
    pub state_directory: NativePath,
}

#[verifier::ext_equal]
pub struct WritePlanView {
    pub snapshot: SnapshotView,
    pub header: Seq<u8>,
    pub directories: Seq<Seq<u8>>,
    pub suffix: Seq<char>,
    pub migrate: bool,
    pub state_directory: Seq<u8>,
}

impl View for WritePlan {
    type V = WritePlanView;

    open spec fn view(&self) -> WritePlanView {
        WritePlanView {
            snapshot: self.snapshot@,
            header: self.header@,
            directories: path_views(self.directories@),
            suffix: self.suffix@,
            migrate: self.migrate,
            state_directory: self.state_directory@,
        }
    }
}

#[derive(Debug)]
pub enum Plan {
    Write(WritePlan),
    Close,
}

#[verifier::ext_equal]
pub enum PlanView {
    Write(WritePlanView),
    Close,
}

impl View for Plan {
    type V = PlanView;

    open spec fn view(&self) -> PlanView {
        match self {
            Plan::Write(plan) => PlanView::Write(plan@),
            Plan::Close => PlanView::Close,
        }
    }
}

/// A fault with the file or directory that it concerns.
#[derive(Debug)]
pub struct Trouble {
    pub path: NativePath,
    pub fault: Fault,
}

#[verifier::ext_equal]
pub struct TroubleView {
    pub path: Seq<u8>,
    pub fault: FaultView,
}

impl View for Trouble {
    type V = TroubleView;

    open spec fn view(&self) -> TroubleView {
        TroubleView { path: self.path@, fault: self.fault@ }
    }
}

pub open spec fn trouble_views(troubles: Seq<Trouble>) -> Seq<TroubleView> {
    troubles.map_values(|t: Trouble| t@)
}

/// A write or a close in progress.
#[derive(Debug)]
pub struct Work {
    pub plan: Plan,
    pub stage: Stage,
    /// The name of the temporary file, while there is one.
    pub name: Vec<u8>,
    /// What went wrong so far without ending the work.
    pub troubles: Vec<Trouble>,
}

#[verifier::ext_equal]
pub struct WorkView {
    pub plan: PlanView,
    pub stage: Stage,
    pub name: Seq<u8>,
    pub troubles: Seq<TroubleView>,
}

impl View for Work {
    type V = WorkView;

    open spec fn view(&self) -> WorkView {
        WorkView {
            plan: self.plan@,
            stage: self.stage,
            name: self.name@,
            troubles: trouble_views(self.troubles@),
        }
    }
}

/// What the work asks of the file system.
#[derive(Debug)]
pub enum Action {
    /// Open the path as a regular recovery file and compare it with the file that holds the lock.
    Check { path: NativePath, lock: u64 },
    /// Copy the file that holds the lock, from its start, into a new temporary file of private
    /// permissions, with a random name between this prefix and suffix.
    CopyOriginal { directory: NativePath, lock: u64, prefix: Vec<u8>, suffix: Vec<u8> },
    /// Write a new temporary file of private permissions, with a random name between this prefix
    /// and suffix. Where `create` is given, the directory is first created where it is missing,
    /// and the directories that it lists are synced.
    Stage {
        directory: NativePath,
        create: Option<Vec<NativePath>>,
        prefix: Vec<u8>,
        suffix: Vec<u8>,
        contents: Vec<u8>,
    },
    SyncTemporary,
    LockTemporary,
    /// Open the path of the temporary file as a regular recovery file and compare it with the
    /// file that holds the lock.
    IdentifyTemporary { lock: u64 },
    /// Rename the temporary file. What the destination names is replaced only where `replace` is
    /// set; elsewhere an existing destination is an error.
    Persist { destination: NativePath, replace: bool },
    SyncDirectory(NativePath),
    /// Whether the path names anything, without following a link.
    Inspect(NativePath),
    Unlink(NativePath),
}

#[verifier::ext_equal]
pub enum ActionView {
    Check { path: Seq<u8>, lock: u64 },
    CopyOriginal { directory: Seq<u8>, lock: u64, prefix: Seq<u8>, suffix: Seq<u8> },
    Stage {
        directory: Seq<u8>,
        create: Option<Seq<Seq<u8>>>,
        prefix: Seq<u8>,
        suffix: Seq<u8>,
        contents: Seq<u8>,
    },
    SyncTemporary,
    LockTemporary,
    IdentifyTemporary { lock: u64 },
    Persist { destination: Seq<u8>, replace: bool },
    SyncDirectory(Seq<u8>),
    Inspect(Seq<u8>),
    Unlink(Seq<u8>),
}

pub open spec fn paths_option(paths: Option<Vec<NativePath>>) -> Option<Seq<Seq<u8>>> {
    match paths {
        Some(list) => Some(path_views(list@)),
        None => None,
    }
}

impl View for Action {
    type V = ActionView;

    open spec fn view(&self) -> ActionView {
        match self {
            Action::Check { path, lock } => ActionView::Check { path: path@, lock: *lock },
            Action::CopyOriginal { directory, lock, prefix, suffix } => ActionView::CopyOriginal {
                directory: directory@,
                lock: *lock,
                prefix: prefix@,
                suffix: suffix@,
            },
            Action::Stage { directory, create, prefix, suffix, contents } => ActionView::Stage {
                directory: directory@,
                create: paths_option(*create),
                prefix: prefix@,
                suffix: suffix@,
                contents: contents@,
            },
            Action::SyncTemporary => ActionView::SyncTemporary,
            Action::LockTemporary => ActionView::LockTemporary,
            Action::IdentifyTemporary { lock } => ActionView::IdentifyTemporary { lock: *lock },
            Action::Persist { destination, replace } => ActionView::Persist {
                destination: destination@,
                replace: *replace,
            },
            Action::SyncDirectory(path) => ActionView::SyncDirectory(path@),
            Action::Inspect(path) => ActionView::Inspect(path@),
            Action::Unlink(path) => ActionView::Unlink(path@),
        }
    }
}

/// A copy of an original that was made, under the name of its temporary file.
#[derive(Debug)]
pub struct Copied {
    pub name: Vec<u8>,
    /// The length of the original before it was copied.
    pub length: u64,
    /// The bytes that were copied.
    pub copied: u64,
}

/// What came of an action; the text is what the system said where it failed.
#[derive(Debug)]
pub enum Event {
    /// Of `Check` and `IdentifyTemporary`: whether it is the same file.
    Checked(Result<bool, String>),
    /// Of `Inspect`: whether the path names anything.
    Inspected(Result<bool, String>),
    /// Of `CopyOriginal`.
    Copied(Result<Copied, String>),
    /// Of `Stage`: the name of the temporary file.
    Staged(Result<Vec<u8>, String>),
    /// Of `LockTemporary`: the lock that is held now.
    Locked(Result<u64, String>),
    /// Of every other action.
    Done(Result<(), String>),
}

#[verifier::ext_equal]
pub enum EventView {
    Checked(Result<bool, Seq<char>>),
    Inspected(Result<bool, Seq<char>>),
    Copied(Result<(Seq<u8>, u64, u64), Seq<char>>),
    Staged(Result<Seq<u8>, Seq<char>>),
    Locked(Result<u64, Seq<char>>),
    Done(Result<(), Seq<char>>),
}

impl View for Event {
    type V = EventView;

    open spec fn view(&self) -> EventView {
        match self {
            Event::Checked(Ok(same)) => EventView::Checked(Ok(*same)),
            Event::Checked(Err(detail)) => EventView::Checked(Err(detail@)),
            Event::Inspected(Ok(there)) => EventView::Inspected(Ok(*there)),
            Event::Inspected(Err(detail)) => EventView::Inspected(Err(detail@)),
            Event::Copied(Ok(copy)) => EventView::Copied(
                Ok((copy.name@, copy.length, copy.copied)),
            ),
            Event::Copied(Err(detail)) => EventView::Copied(Err(detail@)),
            Event::Staged(Ok(name)) => EventView::Staged(Ok(name@)),
            Event::Staged(Err(detail)) => EventView::Staged(Err(detail@)),
            Event::Locked(Ok(lock)) => EventView::Locked(Ok(*lock)),
            Event::Locked(Err(detail)) => EventView::Locked(Err(detail@)),
            Event::Done(Ok(())) => EventView::Done(Ok(())),
            Event::Done(Err(detail)) => EventView::Done(Err(detail@)),
        }
    }
}

/// Why a write or a close ended without success.
#[derive(Debug)]
pub enum Cause {
    Fault(Fault),
    /// A copy is published, but its directory could not be synced.
    SyncArchive(NativePath, String),
    /// The snapshot is published, but its directory could not be synced.
    SyncPublished(NativePath, String),
    /// Every configured directory failed.
    NoUsableDirectory(Vec<Trouble>),
    /// Files could not be removed.
    Cleanup(Vec<Trouble>),
}

#[verifier::ext_equal]
pub enum CauseView {
    Fault(FaultView),
    SyncArchive(Seq<u8>, Seq<char>),
    SyncPublished(Seq<u8>, Seq<char>),
    NoUsableDirectory(Seq<TroubleView>),
    Cleanup(Seq<TroubleView>),
}

impl View for Cause {
    type V = CauseView;

    open spec fn view(&self) -> CauseView {
        match self {
            Cause::Fault(fault) => CauseView::Fault(fault@),
            Cause::SyncArchive(path, detail) => CauseView::SyncArchive(path@, detail@),
            Cause::SyncPublished(path, detail) => CauseView::SyncPublished(path@, detail@),
            Cause::NoUsableDirectory(troubles) => CauseView::NoUsableDirectory(
                trouble_views(troubles@),
            ),
            Cause::Cleanup(troubles) => CauseView::Cleanup(trouble_views(troubles@)),
        }
    }
}

/// A failure with the backups that are left, which a close reports.
#[derive(Debug)]
pub struct Failure {
    pub cause: Cause,
    pub backups: Vec<NativePath>,
}

#[verifier::ext_equal]
pub struct FailureView {
    pub cause: CauseView,
    pub backups: Seq<Seq<u8>>,
}

impl View for Failure {
    type V = FailureView;

    open spec fn view(&self) -> FailureView {
        FailureView { cause: self.cause@, backups: path_views(self.backups@) }
    }
}

/// What a write or a close comes to.
#[derive(Debug)]
pub enum Progress {
    Continue(Work),
    /// The snapshot is published at this path, and every older file is removed.
    Written(NativePath),
    /// Everything is released; these backups were retained.
    Closed(Vec<NativePath>),
    Failed(Failure),
}

#[verifier::ext_equal]
pub enum ProgressView {
    Continue(WorkView),
    Written(Seq<u8>),
    Closed(Seq<Seq<u8>>),
    Failed(FailureView),
}

impl View for Progress {
    type V = ProgressView;

    open spec fn view(&self) -> ProgressView {
        match self {
            Progress::Continue(work) => ProgressView::Continue(work@),
            Progress::Written(path) => ProgressView::Written(path@),
            Progress::Closed(paths) => ProgressView::Closed(path_views(paths@)),
            Progress::Failed(failure) => ProgressView::Failed(failure@),
        }
    }
}

} // verus!
