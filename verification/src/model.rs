//! What a swap does, step by step.

use vstd::prelude::*;
use vstd::utf8::encode_utf8;

use crate::directories::creation_of;
use crate::files::{check_fault, placed, source_ok, FaultView, OwnedView, SourceView};
use crate::format::{file_image, MAX_HEADER};
use crate::names::{
    archive_name_of, is_temporary, lemma_renamed, published_name_of, renamed, staging_prefix_of,
    ARCHIVE_PREFIX, ARCHIVE_SUFFIX, PREFIX, TEMP_PREFIX,
};
use crate::paths::{joined, lemma_joined_name, parent_of, SEPARATOR};
use crate::work::{
    ActionView, ArchiveStep, CauseView, EventView, FailureView, PlanView, ProgressView,
    PublishStep, RemoveStep, Stage, TroubleView, WorkView, WritePlanView,
};

verus! {

/// What a swap stands for.
#[verifier::ext_equal]
pub struct SwapView {
    pub files: Seq<OwnedView>,
    pub recovered: Seq<SourceView>,
    pub retained_archives: Seq<Seq<u8>>,
    pub source_path: Option<Seq<u8>>,
    pub source_cwd: Seq<u8>,
    pub directories: Seq<Seq<u8>>,
    pub suffix: Seq<char>,
    pub last_generation: Option<u64>,
    pub closed: bool,
    pub retain_recovered: bool,
}

/// The lists are no longer than memory holds.
pub open spec fn fits(s: SwapView) -> bool {
    s.files.len() <= usize::MAX && s.recovered.len() <= usize::MAX
}

/// Every owned file lies in a directory, and no recovered file is lost.
pub open spec fn swap_ok(s: SwapView) -> bool {
    &&& fits(s)
    &&& forall|i: int| 0 <= i < s.files.len() ==> placed(#[trigger] s.files[i])
    &&& forall|i: int| 0 <= i < s.recovered.len() ==> source_ok(#[trigger] s.recovered[i])
}

/// Every recovered original is copied: the copy is owned and the original no longer needed.
pub open spec fn all_archived(s: SwapView) -> bool {
    forall|i: int|
        0 <= i < s.recovered.len() ==> (#[trigger] s.recovered[i]).original is None
            && s.recovered[i].archive is Some
}

/// Where a file lies.
pub open spec fn directory_of_file(file: OwnedView) -> Seq<u8> {
    parent_of(file.path)->0
}

/// The name of a temporary file as it is reported: behind the prefix, and in one directory.
pub open spec fn temporary_file(name: Seq<u8>) -> bool {
    is_temporary(name) && !name.contains(SEPARATOR)
}

/// The paths of the copies, in order.
pub open spec fn archive_paths(recovered: Seq<SourceView>) -> Seq<Seq<u8>>
    decreases recovered.len(),
{
    if recovered.len() == 0 {
        Seq::empty()
    } else {
        let front = archive_paths(recovered.drop_last());
        match recovered.last().archive {
            Some(archive) => front.push(archive.path),
            None => front,
        }
    }
}

/// The paths of the copies in the order in which a close lets go of them: the last one first.
pub open spec fn released_paths(recovered: Seq<SourceView>) -> Seq<Seq<u8>>
    decreases recovered.len(),
{
    if recovered.len() == 0 {
        Seq::empty()
    } else {
        let rest = released_paths(recovered.drop_last());
        match recovered.last().archive {
            Some(archive) => seq![archive.path] + rest,
            None => rest,
        }
    }
}

/// Without the recovered files at the end that have no copy to remove.
pub open spec fn without_uncopied(recovered: Seq<SourceView>) -> Seq<SourceView>
    decreases recovered.len(),
{
    if recovered.len() > 0 && recovered.last().archive is None {
        without_uncopied(recovered.drop_last())
    } else {
        recovered
    }
}

/// The backups that are left after an incomplete close.
pub open spec fn backups_of(s: SwapView) -> Seq<Seq<u8>> {
    archive_paths(s.recovered) + s.retained_archives
}

/// The end of the work without success.
pub open spec fn failed(s: SwapView, plan: PlanView, cause: CauseView) -> (SwapView, ProgressView) {
    let backups = match plan {
        PlanView::Write(_) => Seq::empty(),
        PlanView::Close => backups_of(s),
    };
    (s, ProgressView::Failed(FailureView { cause, backups }))
}

pub open spec fn faulted(s: SwapView, plan: PlanView, fault: FaultView) -> (
    SwapView,
    ProgressView,
) {
    failed(s, plan, CauseView::Fault(fault))
}

/// The work goes on at a stage, with nothing gone wrong yet.
pub open spec fn resumed(s: SwapView, plan: PlanView, stage: Stage, name: Seq<u8>) -> (
    SwapView,
    ProgressView,
) {
    (s, ProgressView::Continue(WorkView { plan, stage, name, troubles: Seq::empty() }))
}

/// A close lets go of the copies: it retains all of them, or removes them from the last on.
pub open spec fn enter_retire(s: SwapView) -> (SwapView, ProgressView) {
    if s.retain_recovered {
        let next = SwapView {
            recovered: Seq::empty(),
            retained_archives: s.retained_archives + released_paths(s.recovered),
            ..s
        };
        (next, ProgressView::Closed(next.retained_archives))
    } else {
        let next = SwapView { recovered: without_uncopied(s.recovered), ..s };
        if next.recovered.len() == 0 {
            (next, ProgressView::Closed(next.retained_archives))
        } else {
            resumed(next, PlanView::Close, Stage::Retire(RemoveStep::Inspect), Seq::empty())
        }
    }
}

/// Owned files are removed, down from before index `end`; what fails stays owned.
pub open spec fn enter_remove(
    s: SwapView,
    plan: PlanView,
    end: int,
    troubles: Seq<TroubleView>,
) -> (SwapView, ProgressView) {
    if end > 0 {
        (
            s,
            ProgressView::Continue(
                WorkView {
                    plan,
                    stage: Stage::Remove(end as usize, RemoveStep::Inspect),
                    name: Seq::empty(),
                    troubles,
                },
            ),
        )
    } else if troubles.len() > 0 {
        failed(s, plan, CauseView::Cleanup(troubles))
    } else {
        match plan {
            PlanView::Write(_) => (s, ProgressView::Written(s.files.last().path)),
            PlanView::Close => enter_retire(s),
        }
    }
}

/// A snapshot is published in the first directory that works, or over the current file.
pub open spec fn enter_publish(s: SwapView, plan: WritePlanView) -> (SwapView, ProgressView) {
    if !plan.migrate {
        resumed(
            s,
            PlanView::Write(plan),
            Stage::Publish(0, PublishStep::Current),
            Seq::empty(),
        )
    } else if plan.directories.len() > 0 {
        resumed(s, PlanView::Write(plan), Stage::Publish(0, PublishStep::Stage), Seq::empty())
    } else {
        failed(s, PlanView::Write(plan), CauseView::NoUsableDirectory(Seq::empty()))
    }
}

/// Where the copying of a recovered file starts.
pub open spec fn archive_entry(source: SourceView) -> ArchiveStep {
    if source.original is None {
        ArchiveStep::Verify
    } else if source.archive is None {
        ArchiveStep::Examine
    } else {
        ArchiveStep::Confirm
    }
}

/// The recovered files from index `i` on are copied, before anything is consumed.
pub open spec fn enter_archive(s: SwapView, plan: PlanView, i: int) -> (SwapView, ProgressView) {
    if i < s.recovered.len() {
        resumed(
            s,
            plan,
            Stage::Archive(i as usize, archive_entry(s.recovered[i])),
            Seq::empty(),
        )
    } else {
        match plan {
            PlanView::Write(plan) => enter_publish(s, plan),
            PlanView::Close => enter_remove(s, plan, s.files.len() as int, Seq::empty()),
        }
    }
}

/// Where the temporary copy of a recovered file is published.
pub open spec fn archive_destination(source: SourceView, name: Seq<u8>) -> Seq<u8> {
    joined(directory_of_file(source.original->0), archive_name_of(name))
}

/// The directory in which the snapshot is staged.
pub open spec fn target_directory(s: SwapView, plan: WritePlanView, k: int) -> Seq<u8> {
    if plan.migrate {
        plan.directories[k]
    } else {
        directory_of_file(s.files.last())
    }
}

/// Where the snapshot is published.
pub open spec fn target_path(s: SwapView, plan: WritePlanView, k: int, name: Seq<u8>) -> Seq<u8> {
    if plan.migrate {
        joined(plan.directories[k], published_name_of(name))
    } else {
        s.files.last().path
    }
}

pub open spec fn check_of(file: OwnedView) -> ActionView {
    ActionView::Check { path: file.path, lock: file.lock }
}

pub open spec fn removal_of(file: OwnedView, step: RemoveStep) -> ActionView {
    match step {
        RemoveStep::Inspect => ActionView::Inspect(file.path),
        RemoveStep::Check => check_of(file),
        RemoveStep::Unlink => ActionView::Unlink(file.path),
        RemoveStep::Sync => ActionView::SyncDirectory(directory_of_file(file)),
    }
}

/// What the copying of a recovered file asks for.
pub open spec fn archive_action(
    source: SourceView,
    step: ArchiveStep,
    name: Seq<u8>,
) -> ActionView {
    match step {
        ArchiveStep::Verify => check_of(source.archive->0),
        ArchiveStep::Examine => check_of(source.original->0),
        ArchiveStep::Copy => ActionView::CopyOriginal {
            directory: directory_of_file(source.original->0),
            lock: source.original->0.lock,
            prefix: encode_utf8(TEMP_PREFIX@),
            suffix: encode_utf8(ARCHIVE_SUFFIX@),
        },
        ArchiveStep::Flush => ActionView::SyncTemporary,
        ArchiveStep::Recheck => check_of(source.original->0),
        ArchiveStep::Lock => ActionView::LockTemporary,
        ArchiveStep::Identify(lock) => ActionView::IdentifyTemporary { lock },
        ArchiveStep::Persist(_) => ActionView::Persist {
            destination: archive_destination(source, name),
            replace: false,
        },
        ArchiveStep::Confirm => check_of(source.archive->0),
        ArchiveStep::Sync => ActionView::SyncDirectory(directory_of_file(source.archive->0)),
    }
}

/// What the publication of a snapshot asks for.
pub open spec fn publish_action(
    s: SwapView,
    plan: WritePlanView,
    k: int,
    step: PublishStep,
    name: Seq<u8>,
) -> ActionView {
    match step {
        PublishStep::Current => check_of(s.files.last()),
        PublishStep::Stage => ActionView::Stage {
            directory: target_directory(s, plan, k),
            create: creation_of(target_directory(s, plan, k), plan.state_directory),
            prefix: staging_prefix_of(plan.snapshot.path),
            suffix: encode_utf8(plan.suffix),
            contents: file_image(plan.header, plan.snapshot.text),
        },
        PublishStep::Flush => ActionView::SyncTemporary,
        PublishStep::Lock => ActionView::LockTemporary,
        PublishStep::Identify(lock) => ActionView::IdentifyTemporary { lock },
        PublishStep::Previous(_) => check_of(s.files.last()),
        PublishStep::Persist(_) => ActionView::Persist {
            destination: target_path(s, plan, k, name),
            replace: !plan.migrate,
        },
    }
}

/// What the work asks of the file system.
pub open spec fn action_of(s: SwapView, w: WorkView) -> ActionView {
    match w.stage {
        Stage::Archive(i, step) => archive_action(s.recovered[i as int], step, w.name),
        Stage::Publish(k, step) => publish_action(s, w.plan->Write_0, k as int, step, w.name),
        Stage::Settle => ActionView::SyncDirectory(directory_of_file(s.files.last())),
        Stage::Remove(i, step) => removal_of(s.files[i - 1], step),
        Stage::Retire(step) => removal_of(s.recovered.last().archive->0, step),
    }
}

/// What can come of an action.
pub open spec fn admitted(action: ActionView, event: EventView) -> bool {
    match action {
        ActionView::Check { .. } => event is Checked,
        ActionView::IdentifyTemporary { .. } => event is Checked,
        ActionView::Inspect(_) => event is Inspected,
        ActionView::CopyOriginal { .. } => event matches EventView::Copied(r) && (r matches Ok(
            copy,
        ) ==> temporary_file(copy.0)),
        ActionView::Stage { .. } => event matches EventView::Staged(r) && (r matches Ok(name)
            ==> temporary_file(name)),
        ActionView::LockTemporary => event is Locked,
        _ => event is Done,
    }
}

/// The verdict on the temporary file, given whether its path names the file that was locked.
pub open spec fn identity_fault(seen: Result<bool, Seq<char>>) -> Option<FaultView> {
    match seen {
        Ok(true) => None,
        Ok(false) => Some(FaultView::TemporaryReplaced),
        Err(detail) => Some(FaultView::System(detail)),
    }
}

/// What went wrong by an event, as far as it alone tells.
pub open spec fn event_fault(event: EventView) -> Option<FaultView> {
    match event {
        EventView::Checked(seen) => check_fault(seen),
        EventView::Inspected(Err(detail)) => Some(FaultView::System(detail)),
        EventView::Copied(Ok(copy)) => if copy.1 == copy.2 {
            None
        } else {
            Some(FaultView::LengthChanged)
        },
        EventView::Copied(Err(detail)) => Some(FaultView::System(detail)),
        EventView::Staged(Err(detail)) => Some(FaultView::System(detail)),
        EventView::Locked(Err(detail)) => Some(FaultView::Lock(detail)),
        EventView::Done(Err(detail)) => Some(FaultView::System(detail)),
        _ => None,
    }
}

/// The copying of recovered file `i` after its step went well.
pub open spec fn archive_done(
    s: SwapView,
    plan: PlanView,
    i: int,
    step: ArchiveStep,
    name: Seq<u8>,
    event: EventView,
) -> (SwapView, ProgressView) {
    let source = s.recovered[i];
    let at = |next: ArchiveStep, name: Seq<u8>|
        resumed(s, plan, Stage::Archive(i as usize, next), name);
    match step {
        ArchiveStep::Verify => enter_archive(s, plan, i + 1),
        ArchiveStep::Examine => at(ArchiveStep::Copy, Seq::empty()),
        ArchiveStep::Copy => at(ArchiveStep::Flush, event->Copied_0->Ok_0.0),
        ArchiveStep::Flush => at(ArchiveStep::Recheck, name),
        ArchiveStep::Recheck => at(ArchiveStep::Lock, name),
        ArchiveStep::Lock => at(ArchiveStep::Identify(event->Locked_0->Ok_0), name),
        ArchiveStep::Identify(lock) => at(ArchiveStep::Persist(lock), name),
        ArchiveStep::Persist(lock) => {
            let archive = OwnedView { path: archive_destination(source, name), lock };
            resumed(
                SwapView {
                    recovered: s.recovered.update(
                        i,
                        SourceView { archive: Some(archive), ..source },
                    ),
                    ..s
                },
                plan,
                Stage::Archive(i as usize, ArchiveStep::Confirm),
                Seq::empty(),
            )
        },
        ArchiveStep::Confirm => at(ArchiveStep::Sync, Seq::empty()),
        ArchiveStep::Sync => enter_archive(
            SwapView {
                recovered: s.recovered.update(i, SourceView { original: None, ..source }),
                ..s
            },
            plan,
            i + 1,
        ),
    }
}

/// The copying of recovered file `i` after an event.
pub open spec fn archive_step(
    s: SwapView,
    plan: PlanView,
    i: int,
    step: ArchiveStep,
    name: Seq<u8>,
    event: EventView,
) -> (SwapView, ProgressView) {
    let fault = match step {
        ArchiveStep::Identify(_) => identity_fault(event->Checked_0),
        _ => event_fault(event),
    };
    match fault {
        None => archive_done(s, plan, i, step, name, event),
        Some(fault) => match step {
            ArchiveStep::Sync => failed(
                s,
                plan,
                CauseView::SyncArchive(s.recovered[i].archive->0.path, event->Done_0->Err_0),
            ),
            _ => faulted(s, plan, fault),
        },
    }
}

/// The swap once the snapshot is published.
pub open spec fn published(
    s: SwapView,
    plan: WritePlanView,
    k: int,
    name: Seq<u8>,
    lock: u64,
) -> SwapView {
    let file = OwnedView { path: target_path(s, plan, k, name), lock };
    SwapView {
        files: (if plan.migrate {
            s.files
        } else {
            s.files.drop_last()
        }).push(file),
        source_path: plan.snapshot.path,
        source_cwd: plan.snapshot.cwd,
        directories: plan.directories,
        suffix: plan.suffix,
        ..s
    }
}

/// The publication in directory `k` after its step went well.
pub open spec fn publish_done(
    s: SwapView,
    plan: WritePlanView,
    k: int,
    step: PublishStep,
    name: Seq<u8>,
    troubles: Seq<TroubleView>,
    event: EventView,
) -> (SwapView, ProgressView) {
    let at = |next: PublishStep, name: Seq<u8>|
        (
            s,
            ProgressView::Continue(
                WorkView {
                    plan: PlanView::Write(plan),
                    stage: Stage::Publish(k as usize, next),
                    name,
                    troubles,
                },
            ),
        );
    match step {
        PublishStep::Current => at(PublishStep::Stage, Seq::empty()),
        PublishStep::Stage => at(PublishStep::Flush, event->Staged_0->Ok_0),
        PublishStep::Flush => at(PublishStep::Lock, name),
        PublishStep::Lock => at(PublishStep::Identify(event->Locked_0->Ok_0), name),
        PublishStep::Identify(lock) => at(
            if plan.migrate {
                PublishStep::Persist(lock)
            } else {
                PublishStep::Previous(lock)
            },
            name,
        ),
        PublishStep::Previous(lock) => at(PublishStep::Persist(lock), name),
        PublishStep::Persist(lock) => resumed(
            published(s, plan, k, name, lock),
            PlanView::Write(plan),
            Stage::Settle,
            Seq::empty(),
        ),
    }
}

/// The publication after directory `k` failed: the next directory is tried, while there is one.
pub open spec fn publish_faulted(
    s: SwapView,
    plan: WritePlanView,
    k: int,
    troubles: Seq<TroubleView>,
    fault: FaultView,
) -> (SwapView, ProgressView) {
    if !plan.migrate {
        faulted(s, PlanView::Write(plan), fault)
    } else {
        let troubles = troubles.push(TroubleView { path: plan.directories[k], fault });
        if k + 1 < plan.directories.len() {
            (
                s,
                ProgressView::Continue(
                    WorkView {
                        plan: PlanView::Write(plan),
                        stage: Stage::Publish((k + 1) as usize, PublishStep::Stage),
                        name: Seq::empty(),
                        troubles,
                    },
                ),
            )
        } else {
            failed(s, PlanView::Write(plan), CauseView::NoUsableDirectory(troubles))
        }
    }
}

/// The publication in directory `k` after an event.
pub open spec fn publish_step(
    s: SwapView,
    plan: WritePlanView,
    k: int,
    step: PublishStep,
    name: Seq<u8>,
    troubles: Seq<TroubleView>,
    event: EventView,
) -> (SwapView, ProgressView) {
    let fault = match step {
        PublishStep::Identify(_) => identity_fault(event->Checked_0),
        _ => event_fault(event),
    };
    match fault {
        None => publish_done(s, plan, k, step, name, troubles, event),
        Some(fault) => publish_faulted(s, plan, k, troubles, fault),
    }
}

/// The synced publication: older files are removed from here on.
pub open spec fn settle_step(s: SwapView, plan: PlanView, event: EventView) -> (
    SwapView,
    ProgressView,
) {
    match event->Done_0 {
        Ok(()) => enter_remove(s, plan, s.files.len() - 1, Seq::empty()),
        Err(detail) => failed(s, plan, CauseView::SyncPublished(s.files.last().path, detail)),
    }
}

/// What follows a step of a removal that went well; nothing follows the last one.
pub open spec fn next_removal(step: RemoveStep, event: EventView) -> Option<RemoveStep> {
    match step {
        RemoveStep::Inspect => match event->Inspected_0 {
            Ok(true) => Some(RemoveStep::Check),
            _ => Some(RemoveStep::Sync),
        },
        RemoveStep::Check => Some(RemoveStep::Unlink),
        RemoveStep::Unlink => Some(RemoveStep::Sync),
        RemoveStep::Sync => None,
    }
}

/// The removal of the owned file before index `i` after an event.
pub open spec fn remove_step(
    s: SwapView,
    plan: PlanView,
    i: int,
    step: RemoveStep,
    troubles: Seq<TroubleView>,
    event: EventView,
) -> (SwapView, ProgressView) {
    match event_fault(event) {
        Some(fault) => enter_remove(
            s,
            plan,
            i - 1,
            troubles.push(TroubleView { path: s.files[i - 1].path, fault }),
        ),
        None => match next_removal(step, event) {
            Some(next) => (
                s,
                ProgressView::Continue(
                    WorkView {
                        plan,
                        stage: Stage::Remove(i as usize, next),
                        name: Seq::empty(),
                        troubles,
                    },
                ),
            ),
            None => enter_remove(
                SwapView { files: s.files.remove(i - 1), ..s },
                plan,
                i - 1,
                troubles,
            ),
        },
    }
}

/// The removal of the last copy after an event.
pub open spec fn retire_step(s: SwapView, step: RemoveStep, event: EventView) -> (
    SwapView,
    ProgressView,
) {
    match event_fault(event) {
        Some(fault) => faulted(s, PlanView::Close, fault),
        None => match next_removal(step, event) {
            Some(next) => resumed(s, PlanView::Close, Stage::Retire(next), Seq::empty()),
            None => enter_retire(SwapView { recovered: s.recovered.drop_last(), ..s }),
        },
    }
}

/// What the work comes to after an event.
pub open spec fn step_of(s: SwapView, w: WorkView, event: EventView) -> (SwapView, ProgressView) {
    match w.stage {
        Stage::Archive(i, step) => archive_step(s, w.plan, i as int, step, w.name, event),
        Stage::Publish(k, step) => publish_step(
            s,
            w.plan->Write_0,
            k as int,
            step,
            w.name,
            w.troubles,
            event,
        ),
        Stage::Settle => settle_step(s, w.plan, event),
        Stage::Remove(i, step) => remove_step(s, w.plan, i as int, step, w.troubles, event),
        Stage::Retire(step) => retire_step(s, step, event),
    }
}

/// A step of the copying fits what is owned.
pub open spec fn archive_fits(source: SourceView, step: ArchiveStep, name: Seq<u8>) -> bool {
    match step {
        ArchiveStep::Verify => source.original is None && source.archive is Some,
        ArchiveStep::Examine | ArchiveStep::Copy => source.original is Some
            && source.archive is None,
        ArchiveStep::Confirm | ArchiveStep::Sync => source.original is Some
            && source.archive is Some,
        _ => source.original is Some && source.archive is None && temporary_file(name),
    }
}

/// A step of the publication fits the plan.
pub open spec fn publish_fits(plan: WritePlanView, step: PublishStep, name: Seq<u8>) -> bool {
    match step {
        PublishStep::Current => !plan.migrate,
        PublishStep::Stage => true,
        PublishStep::Previous(_) => !plan.migrate && temporary_file(name),
        _ => temporary_file(name),
    }
}

/// The plan of a write that the format and memory can hold.
pub open spec fn plan_ok(plan: PlanView) -> bool {
    plan matches PlanView::Write(p) ==> {
        &&& p.header.len() <= MAX_HEADER
        &&& p.directories.len() <= usize::MAX
    }
}

/// A write or a close that is in progress on this swap. Where it stands tells what holds:
/// nothing is published or removed by a write, or by a close that retains, before every
/// recovered original is copied.
pub open spec fn work_ok(s: SwapView, w: WorkView) -> bool {
    &&& swap_ok(s)
    &&& plan_ok(w.plan)
    &&& s.closed <==> w.plan is Close
    &&& match w.stage {
        Stage::Archive(i, step) => {
            &&& i < s.recovered.len()
            &&& archive_fits(s.recovered[i as int], step, w.name)
            &&& forall|j: int| 0 <= j < i ==> (#[trigger] s.recovered[j]).original is None
            &&& w.plan is Close ==> s.retain_recovered
            &&& w.plan matches PlanView::Write(p) ==> (!p.migrate ==> s.files.len() > 0)
        },
        Stage::Publish(k, step) => {
            &&& w.plan matches PlanView::Write(p)
            &&& all_archived(s)
            &&& publish_fits(p, step, w.name)
            &&& p.migrate ==> k < p.directories.len() && w.troubles.len() == k
            &&& !p.migrate ==> k == 0 && s.files.len() > 0 && w.troubles.len() == 0
        },
        Stage::Settle => {
            &&& w.plan is Write
            &&& all_archived(s)
            &&& 0 < s.files.len()
        },
        Stage::Remove(i, step) => {
            &&& 0 < i
            &&& w.plan is Write ==> all_archived(s) && i + 1 + w.troubles.len() == s.files.len()
            &&& w.plan is Close ==> i + w.troubles.len() == s.files.len()
            &&& w.plan is Close && s.retain_recovered ==> all_archived(s)
        },
        Stage::Retire(step) => {
            &&& w.plan is Close
            &&& !s.retain_recovered
            &&& s.files.len() == 0
            &&& s.recovered.len() > 0
            &&& s.recovered.last().archive is Some
        },
    }
}

/// What holds when the work goes on, and when it has ended.
pub open spec fn progress_ok(s: SwapView, p: ProgressView) -> bool {
    match p {
        ProgressView::Continue(w) => work_ok(s, w),
        _ => swap_ok(s),
    }
}

pub proof fn lemma_without_uncopied(recovered: Seq<SourceView>)
    ensures
        without_uncopied(recovered).len() <= recovered.len(),
        without_uncopied(recovered) == recovered.take(without_uncopied(recovered).len() as int),
        without_uncopied(recovered).len() > 0 ==> without_uncopied(recovered).last().archive
            is Some,
    decreases recovered.len(),
{
    if recovered.len() > 0 && recovered.last().archive is None {
        lemma_without_uncopied(recovered.drop_last());
        let kept = without_uncopied(recovered);
        assert(recovered.drop_last().take(kept.len() as int) =~= recovered.take(kept.len() as int));
    } else {
        assert(recovered.take(recovered.len() as int) =~= recovered);
    }
}

proof fn lemma_retire_ok(s: SwapView)
    requires
        swap_ok(s),
        s.closed,
        s.files.len() == 0,
    ensures
        progress_ok(enter_retire(s).0, enter_retire(s).1),
{
    lemma_without_uncopied(s.recovered);
    let kept = without_uncopied(s.recovered);
    assert forall|i: int| 0 <= i < kept.len() implies source_ok(#[trigger] kept[i]) by {
        assert(kept[i] == s.recovered[i]);
    }
}

pub proof fn lemma_remove_ok(s: SwapView, plan: PlanView, end: int, troubles: Seq<TroubleView>)
    requires
        swap_ok(s),
        plan_ok(plan),
        s.closed <==> plan is Close,
        0 <= end <= s.files.len(),
        plan is Write ==> all_archived(s) && end + 1 + troubles.len() == s.files.len(),
        plan is Close ==> end + troubles.len() == s.files.len(),
        plan is Close && s.retain_recovered ==> all_archived(s),
    ensures
        progress_ok(
            enter_remove(s, plan, end, troubles).0,
            enter_remove(s, plan, end, troubles).1,
        ),
{
    if end == 0 && troubles.len() == 0 && plan is Close {
        lemma_retire_ok(s);
    }
}

/// Where copying stands at index `i`, it goes on well.
pub proof fn lemma_archive_ok(s: SwapView, plan: PlanView, i: int)
    requires
        swap_ok(s),
        plan_ok(plan),
        s.closed <==> plan is Close,
        0 <= i <= s.recovered.len(),
        forall|j: int| 0 <= j < i ==> (#[trigger] s.recovered[j]).original is None,
        plan is Close ==> s.retain_recovered,
        plan matches PlanView::Write(p) ==> (!p.migrate ==> s.files.len() > 0),
    ensures
        progress_ok(enter_archive(s, plan, i).0, enter_archive(s, plan, i).1),
{
    if i < s.recovered.len() {
        assert(source_ok(s.recovered[i]));
    } else {
        assert(all_archived(s)) by {
            assert forall|j: int| 0 <= j < s.recovered.len() implies (
            #[trigger] s.recovered[j]).original is None && s.recovered[j].archive is Some by {
                assert(source_ok(s.recovered[j]));
            }
        }
        if plan is Close {
            lemma_remove_ok(s, plan, s.files.len() as int, Seq::empty());
        }
    }
}

/// A file of one of the library's own names in a directory lies in a directory.
proof fn lemma_destination_placed(directory: Seq<u8>, name: Seq<u8>, prefix: Seq<u8>)
    requires
        temporary_file(name),
        prefix == encode_utf8(PREFIX@) || prefix == encode_utf8(ARCHIVE_PREFIX@),
    ensures
        parent_of(joined(directory, renamed(name, prefix))) is Some,
{
    let file = renamed(name, prefix);
    lemma_renamed(name, prefix);
    lemma_joined_name(directory, file);
}

proof fn lemma_archive_step_ok(s: SwapView, w: WorkView, event: EventView)
    requires
        work_ok(s, w),
        w.stage is Archive,
        admitted(action_of(s, w), event),
    ensures
        progress_ok(step_of(s, w, event).0, step_of(s, w, event).1),
{
    if let Stage::Archive(i, step) = w.stage {
        let i = i as int;
        let source = s.recovered[i];
        assert(source_ok(source));
        match step {
            ArchiveStep::Verify => {
                lemma_archive_ok(s, w.plan, i + 1);
            },
            ArchiveStep::Persist(lock) => {
                lemma_destination_placed(
                    directory_of_file(source.original->0),
                    w.name,
                    encode_utf8(ARCHIVE_PREFIX@),
                );
            },
            ArchiveStep::Sync => {
                let next = SwapView {
                    recovered: s.recovered.update(i, SourceView { original: None, ..source }),
                    ..s
                };
                lemma_archive_ok(next, w.plan, i + 1);
            },
            _ => {},
        }
    }
}

proof fn lemma_publish_step_ok(s: SwapView, w: WorkView, event: EventView)
    requires
        work_ok(s, w),
        w.stage is Publish,
        admitted(action_of(s, w), event),
        fits(step_of(s, w, event).0),
    ensures
        progress_ok(step_of(s, w, event).0, step_of(s, w, event).1),
{
    if let Stage::Publish(k, step) = w.stage {
        let plan = w.plan->Write_0;
        if step is Persist && plan.migrate {
            lemma_destination_placed(plan.directories[k as int], w.name, encode_utf8(PREFIX@));
        }
    }
}

proof fn lemma_remove_step_ok(s: SwapView, w: WorkView, event: EventView)
    requires
        work_ok(s, w),
        w.stage is Remove,
        admitted(action_of(s, w), event),
    ensures
        progress_ok(step_of(s, w, event).0, step_of(s, w, event).1),
{
    if let Stage::Remove(i, step) = w.stage {
        let i = i as int;
        match event_fault(event) {
            Some(fault) => {
                lemma_remove_ok(
                    s,
                    w.plan,
                    i - 1,
                    w.troubles.push(TroubleView { path: s.files[i - 1].path, fault }),
                );
            },
            None => {
                if step is Sync {
                    let next = SwapView { files: s.files.remove(i - 1), ..s };
                    lemma_remove_ok(next, w.plan, i - 1, w.troubles);
                }
            },
        }
    }
}

proof fn lemma_retire_step_ok(s: SwapView, w: WorkView, event: EventView)
    requires
        work_ok(s, w),
        w.stage is Retire,
        admitted(action_of(s, w), event),
    ensures
        progress_ok(step_of(s, w, event).0, step_of(s, w, event).1),
{
    if let Stage::Retire(step) = w.stage {
        if event_fault(event) is None && step is Sync {
            lemma_retire_ok(SwapView { recovered: s.recovered.drop_last(), ..s });
        }
    }
}

/// What is stated of work in progress holds after every step.
pub proof fn lemma_step_ok(s: SwapView, w: WorkView, event: EventView)
    requires
        work_ok(s, w),
        admitted(action_of(s, w), event),
        fits(step_of(s, w, event).0),
    ensures
        progress_ok(step_of(s, w, event).0, step_of(s, w, event).1),
{
    match w.stage {
        Stage::Archive(_, _) => {
            lemma_archive_step_ok(s, w, event);
        },
        Stage::Publish(_, _) => {
            lemma_publish_step_ok(s, w, event);
        },
        Stage::Settle => {
            lemma_remove_ok(s, w.plan, s.files.len() - 1, Seq::empty());
        },
        Stage::Remove(_, _) => {
            lemma_remove_step_ok(s, w, event);
        },
        Stage::Retire(_) => {
            lemma_retire_step_ok(s, w, event);
        },
    }
}

} // verus!
