//! Claiming a recovery file: its snapshot with exclusive ownership of the file.

use vstd::prelude::*;
use vstd::utf8::decode_utf8;

use crate::config::{clock_answers, clock_reaches, config_fault, Config, ConfigView};
use crate::directories::{directories_fault, directories_of, directories_with, DirectoriesError};
use crate::files::{check, check_fault, placed, seen_view, Fault, OwnedFile, OwnedView};
use crate::format::{
    decode, described, metadata_of, read_fault, Header, ReadError, RecoveryMetadata, MAX_HEADER,
};
use crate::paths::{
    components, is_absolute, law_join_components, parent_of, path_option, path_views, pieces,
    NativePath,
};
use crate::snapshot::{original_file_of, Snapshot, SnapshotView};

verus! {

/// A decoded snapshot and exclusive ownership of its selected file. Dropping this claim releases
/// the lock without changing or removing the file.
#[derive(Debug)]
pub struct Recovery {
    pub snapshot: Snapshot,
    pub metadata: RecoveryMetadata,
    pub file: OwnedFile,
    pub source_path: Option<NativePath>,
    pub source_cwd: NativePath,
    pub directories: Vec<NativePath>,
    pub suffix: String,
}

/// What a claim stands for.
#[verifier::ext_equal]
pub struct RecoveryView {
    pub snapshot: SnapshotView,
    pub metadata: RecoveryMetadata,
    pub file: OwnedView,
    pub source_path: Option<Seq<u8>>,
    pub source_cwd: Seq<u8>,
    pub directories: Seq<Seq<u8>>,
    pub suffix: Seq<char>,
}

impl View for Recovery {
    type V = RecoveryView;

    open spec fn view(&self) -> RecoveryView {
        RecoveryView {
            snapshot: self.snapshot@,
            metadata: self.metadata,
            file: self.file@,
            source_path: path_option(self.source_path),
            source_cwd: self.source_cwd@,
            directories: path_views(self.directories@),
            suffix: self.suffix@,
        }
    }
}

impl Recovery {
    pub fn path(&self) -> (r: &NativePath)
        ensures
            r@ == self@.file.path,
    {
        &self.file.path
    }

    /// Rechecks the selected identity before the snapshot is applied to a document. `seen` is
    /// whether the path names the file that is claimed.
    pub fn check(&self, seen: Result<bool, String>) -> (r: Result<(), Fault>)
        ensures
            match r {
                Ok(()) => check_fault(seen_view(seen)) is None,
                Err(fault) => check_fault(seen_view(seen)) == Some(fault@),
            },
    {
        check(seen)
    }
}

/// Why a file cannot be claimed.
#[derive(Debug)]
pub enum ClaimError {
    /// The path is a directory: it has none that it lies in.
    NotRegular,
    Read(ReadError),
    Directories(DirectoriesError),
    Check(Fault),
}

/// A file that is open and locked, with all that was read from it.
#[derive(Debug)]
pub struct Opened {
    /// The absolute path.
    pub path: NativePath,
    pub lock: u64,
    pub header: Header,
    /// The length of the header.
    pub length: usize,
    /// The length of the file.
    pub file_length: u64,
    /// What follows the header.
    pub rest: Vec<u8>,
    /// Whether the path still names the open file.
    pub seen: Result<bool, String>,
}

/// The snapshot that an open file holds.
pub open spec fn opened_snapshot(opened: Opened) -> SnapshotView {
    described(opened.header@, decode_utf8(opened.rest@))
}

/// The claim on an open file. The saved path is read against the saved working directory, and
/// not resolved again.
pub open spec fn recovery_of(
    opened: Opened,
    config: ConfigView,
    expanded: Seq<Seq<u8>>,
) -> RecoveryView {
    let snapshot = opened_snapshot(opened);
    let source_path = original_file_of(snapshot);
    RecoveryView {
        snapshot,
        metadata: metadata_of(opened.header@),
        file: OwnedView { path: opened.path@, lock: opened.lock },
        source_path,
        source_cwd: snapshot.cwd,
        directories: directories_of(config, expanded, source_path, snapshot.cwd),
        suffix: config.suffix,
    }
}

/// The outcome of a claim: the first fault in this order, or the claim.
pub open spec fn claim_outcome(
    r: Result<Recovery, ClaimError>,
    opened: Opened,
    config: ConfigView,
    expanded: Seq<Seq<u8>>,
    reachable: bool,
) -> bool {
    let unread = read_fault(
        opened.header@,
        opened.length as nat,
        opened.file_length,
        opened.rest@,
    );
    let undirected = directories_fault(config, opened_snapshot(opened).cwd, reachable);
    if parent_of(opened.path@) is None {
        r matches Err(ClaimError::NotRegular)
    } else if unread is Some {
        r matches Err(ClaimError::Read(e)) && unread == Some(e)
    } else if undirected is Some {
        r matches Err(ClaimError::Directories(e)) && undirected == Some(e)
    } else if check_fault(seen_view(opened.seen)) is Some {
        r matches Err(ClaimError::Check(fault)) && check_fault(seen_view(opened.seen)) == Some(
            fault@,
        )
    } else {
        r matches Ok(recovery) && recovery@ == recovery_of(opened, config, expanded) && placed(
            recovery@.file,
        )
    }
}

/// Claims an open file, given whether the clock can represent the deadline of the configured
/// update interval.
pub fn claim_with(
    opened: Opened,
    config: &Config,
    expanded: &Vec<NativePath>,
    reachable: bool,
) -> (r: Result<Recovery, ClaimError>)
    requires
        opened.length <= MAX_HEADER,
        expanded@.len() == config.directories@.len(),
    ensures
        claim_outcome(r, opened, config@, path_views(expanded@), reachable),
{
    let Opened { path, lock, header, length, file_length, rest, seen } = opened;
    if path.parent().is_none() {
        return Err(ClaimError::NotRegular);
    }
    let (snapshot, metadata) = match decode(header, length, file_length, rest.as_slice()) {
        Ok(found) => found,
        Err(e) => {
            return Err(ClaimError::Read(e));
        },
    };
    let source_path = snapshot.original_file();
    let directories = match directories_with(
        config,
        expanded,
        &source_path,
        &snapshot.cwd,
        reachable,
    ) {
        Ok(found) => found,
        Err(e) => {
            return Err(ClaimError::Directories(e));
        },
    };
    match check(seen) {
        Ok(()) => {},
        Err(fault) => {
            return Err(ClaimError::Check(fault));
        },
    }
    let recovery = Recovery {
        source_cwd: snapshot.cwd.clone(),
        snapshot,
        metadata,
        file: OwnedFile { path, lock },
        source_path,
        directories,
        suffix: config.suffix.clone(),
    };
    assert(recovery@ =~= recovery_of(opened, config@, path_views(expanded@)));
    Ok(recovery)
}

/// Claims an open file without writing or removing anything, preparing its adoption with the
/// current configuration.
pub fn claim(opened: Opened, config: &Config, expanded: &Vec<NativePath>) -> (r: Result<
    Recovery,
    ClaimError,
>)
    requires
        opened.length <= MAX_HEADER,
        expanded@.len() == config.directories@.len(),
    ensures
        exists|reachable: bool| #[trigger]
            clock_answers(config.update_time, reachable) && claim_outcome(
                r,
                opened,
                config@,
                path_views(expanded@),
                reachable,
            ),
{
    let reachable = clock_reaches(config.update_time);
    claim_with(opened, config, expanded, reachable)
}

/// Law: a claim is that of the file: its snapshot and facts are those that are saved, its path and
/// lock are those of the open file, and its original is the saved path, read against the saved
/// working directory where it is relative. Only directories and suffix come from the settings, and
/// the directories are named from the saved original and working directory.
pub proof fn law_claim_is_that_of_the_file(
    opened: Opened,
    config: ConfigView,
    expanded: Seq<Seq<u8>>,
)
    requires
        is_absolute(opened.header@.cwd),
    ensures
        ({
            let claim = recovery_of(opened, config, expanded);
            let header = opened.header@;
            &&& claim.snapshot.path == header.path && claim.snapshot.cwd == header.cwd
            &&& claim.snapshot.text == decode_utf8(opened.rest@)
            &&& claim.snapshot.encoding == header.encoding
            &&& claim.snapshot.has_bom == header.has_bom
            &&& claim.snapshot.line_ending == header.line_ending
            &&& claim.snapshot.selections == header.selections
            &&& claim.snapshot.primary == header.primary
            &&& claim.metadata.timestamp == header.timestamp
            &&& claim.metadata.original_size == header.original_size
            &&& claim.metadata.original_modified == header.original_modified
            &&& claim.file.path == opened.path@ && claim.file.lock == opened.lock
            &&& claim.source_cwd == header.cwd
            &&& claim.source_path is Some <==> header.path is Some
            &&& header.path matches Some(path) ==> {
                &&& is_absolute(path) ==> claim.source_path == Some(path)
                &&& !is_absolute(path) ==> components(claim.source_path->0) == components(
                    header.cwd,
                ) + pieces(path)
            }
            &&& claim.directories == directories_of(
                config,
                expanded,
                claim.source_path,
                header.cwd,
            )
            &&& claim.suffix == config.suffix
        }),
{
    if let Some(path) = opened.header@.path {
        law_join_components(opened.header@.cwd, path);
    }
}

/// Law: a file is claimed exactly when its path has a directory, it can be read, the settings name
/// directories and its path still names it. What is wrong is told in this order.
pub proof fn law_when_a_file_is_claimed(
    r: Result<Recovery, ClaimError>,
    opened: Opened,
    config: ConfigView,
    expanded: Seq<Seq<u8>>,
    reachable: bool,
)
    requires
        claim_outcome(r, opened, config, expanded, reachable),
    ensures
        ({
            let placed = parent_of(opened.path@) is Some;
            let unread = read_fault(
                opened.header@,
                opened.length as nat,
                opened.file_length,
                opened.rest@,
            );
            let settled = config_fault(config, reachable) is None;
            let seen = seen_view(opened.seen) == Ok::<bool, Seq<char>>(true);
            &&& r is Ok <==> placed && unread is None && settled && seen
            &&& r matches Ok(claim) ==> claim@ == recovery_of(opened, config, expanded)
            &&& !placed ==> (r matches Err(ClaimError::NotRegular))
            &&& placed && unread is Some ==> (r matches Err(ClaimError::Read(e)) && e == unread->0)
            &&& placed && unread is None && !settled ==> (r matches Err(
                ClaimError::Directories(e),
            ) && e == DirectoriesError::Config(config_fault(config, reachable)->0))
            &&& placed && unread is None && settled && !seen ==> (r matches Err(
                ClaimError::Check(_),
            ))
        }),
{
}

} // verus!
