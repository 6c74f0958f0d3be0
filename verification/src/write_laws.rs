//! What a swap decides, asks for and reports, action by action.

use vstd::prelude::*;
use vstd::utf8::encode_utf8;

use crate::claim::RecoveryView;
use crate::config::{config_fault, ConfigView};
use crate::directories::{ancestors_of, directories_fault, directories_of};
use crate::files::{source_ok, FaultView, OwnedView, SourceView};
use crate::format::file_image;
use crate::model::{
    action_of, admitted, archive_paths, backups_of, enter_archive, enter_publish, enter_remove,
    enter_retire, released_paths, step_of, work_ok, SwapView,
};
use crate::names::{archive_name_of, is_archive, published_name_of, staging_prefix_of};
use crate::paths::{components, is_absolute, joined, parent_of, same_path, same_paths};
use crate::snapshot::{snapshot_fault, SnapshotView};
use crate::swap::{
    adopted, attempted, begin_fault, closing, current_path, empty_swap, fenced, holds_lock,
    migrates, plan_of, shut, source_holds, write_verdict, WriteError,
};
use crate::work::{
    ActionView, ArchiveStep, CauseView, EventView, PlanView, ProgressView, PublishStep, RemoveStep,
    Stage, TroubleView, WorkView, WritePlanView,
};

verus! {

/// Law: a write is to be made exactly when the swap is open and no newer one was attempted, the
/// settings are valid and enable it, the text is within the size limit, and the snapshot is in
/// order. Without the first or the enabling, or over the limit, it is passed over; a fault of the
/// settings is told before one of the snapshot.
pub proof fn law_when_a_write_is_made(
    s: SwapView,
    snapshot: SnapshotView,
    config: ConfigView,
    generation: u64,
    reachable: bool,
)
    ensures
        ({
            let stale = s.closed || (s.last_generation is Some && generation
                < s.last_generation->0);
            let over = config.size_threshold > 0 && encode_utf8(snapshot.text).len()
                > config.size_threshold;
            let invalid = config_fault(config, reachable);
            let wrong = snapshot_fault(snapshot);
            let verdict = write_verdict(s, snapshot, config, generation, reachable);
            &&& verdict == Ok::<bool, WriteError>(true) <==> !stale && invalid is None
                && config.enable && !over && wrong is None
            &&& verdict == Ok::<bool, WriteError>(false) <==> stale || (invalid is None && (
            !config.enable || over))
            &&& !stale && invalid is Some ==> verdict == Err::<bool, WriteError>(
                WriteError::Config(invalid->0),
            )
            &&& !stale && invalid is None && config.enable && !over && wrong is Some ==> verdict
                == Err::<bool, WriteError>(WriteError::Snapshot(wrong->0))
        }),
{
}

/// Law: a snapshot whose cursors lie anywhere within the text, its end included, is written under
/// enabled and valid settings by an open swap, whatever the rest of it holds.
pub proof fn law_snapshots_in_order_are_written(
    s: SwapView,
    snapshot: SnapshotView,
    config: ConfigView,
    generation: u64,
    reachable: bool,
)
    requires
        !s.closed,
        s.last_generation is None || generation >= s.last_generation->0,
        config_fault(config, reachable) is None,
        config.enable,
        config.size_threshold == 0 || encode_utf8(snapshot.text).len() <= config.size_threshold,
        snapshot.cwd.len() > 0 && snapshot.cwd[0] == 47,
        !snapshot.cwd.contains(0u8),
        snapshot.path is Some ==> !snapshot.path->0.contains(0u8),
        snapshot.primary < snapshot.selections.len(),
        forall|i: int|
            0 <= i < snapshot.selections.len() ==> (#[trigger] snapshot.selections[i]).0
                <= snapshot.text.len() && snapshot.selections[i].1 <= snapshot.text.len(),
    ensures
        snapshot_fault(snapshot) is None,
        write_verdict(s, snapshot, config, generation, reachable) == Ok::<bool, WriteError>(true),
{
}

/// Law: an attempt notes its generation and nothing else, and one that is passed over as stale
/// notes nothing.
pub proof fn law_attempts_note_their_generation(s: SwapView, generation: u64)
    ensures
        ({
            let stale = s.closed || (s.last_generation is Some && generation
                < s.last_generation->0);
            &&& fenced(s, generation) <==> stale
            &&& stale ==> attempted(s, generation) == s
            &&& !stale ==> attempted(s, generation) == (SwapView {
                last_generation: Some(generation),
                ..s
            })
        }),
{
}

/// Law: a write moves to a new file exactly when none is owned, the newest one is a backup, the
/// original is another path, an unnamed buffer has another working directory, the directories are
/// others or in another order, or the suffix is another.
pub proof fn law_when_a_write_moves(
    s: SwapView,
    snapshot: SnapshotView,
    directories: Seq<Seq<u8>>,
    suffix: Seq<char>,
)
    ensures
        ({
            let original = (s.source_path is None && snapshot.path is None && components(
                s.source_cwd,
            ) == components(snapshot.cwd)) || (s.source_path is Some && snapshot.path is Some
                && components(s.source_path->0) == components(snapshot.path->0));
            let listed = s.directories.len() == directories.len() && forall|i: int|
                0 <= i < directories.len() ==> components(#[trigger] s.directories[i])
                    == components(directories[i]);
            !migrates(s, snapshot, directories, suffix) <==> {
                &&& s.files.len() > 0 && !is_archive(s.files.last().path)
                &&& original
                &&& listed
                &&& s.suffix == suffix
            }
        }),
{
    let listed = s.directories.len() == directories.len() && forall|i: int|
        0 <= i < directories.len() ==> components(#[trigger] s.directories[i]) == components(
            directories[i],
        );
    assert(same_paths(s.directories, directories) <==> listed) by {
        if same_paths(s.directories, directories) {
            assert forall|i: int| 0 <= i < directories.len() implies components(
                #[trigger] s.directories[i],
            ) == components(directories[i]) by {
                assert(same_path(s.directories[i], directories[i]));
            }
        }
    }
}

/// Law: a write begins exactly with a header of at most 65536 bytes, valid settings and an
/// absolute working directory. Its plan holds the snapshot and the header as they are given, and
/// the directories and the suffix of the settings.
pub proof fn law_plan_of_a_write(
    s: SwapView,
    snapshot: SnapshotView,
    header: Seq<u8>,
    config: ConfigView,
    expanded: Seq<Seq<u8>>,
    state_directory: Seq<u8>,
    reachable: bool,
)
    ensures
        ({
            let fault = begin_fault(header, config, snapshot.cwd, reachable);
            let plan = plan_of(s, snapshot, header, config, expanded, state_directory);
            &&& fault is None <==> header.len() <= 65536 && config_fault(config, reachable) is None
                && is_absolute(snapshot.cwd)
            &&& fault == Some(WriteError::HeaderTooLong) <==> header.len() > 65536
            &&& header.len() <= 65536 && directories_fault(config, snapshot.cwd, reachable) is Some
                ==> fault == Some(
                WriteError::Directories(directories_fault(config, snapshot.cwd, reachable)->0),
            )
            &&& plan.snapshot == snapshot && plan.header == header
            &&& plan.directories == directories_of(
                config,
                expanded,
                snapshot.path,
                snapshot.cwd,
            )
            &&& plan.suffix == config.suffix && plan.state_directory == state_directory
            &&& plan.migrate == migrates(s, snapshot, plan.directories, config.suffix)
        }),
{
}

/// Law: an adopted claim is the newest owned file and one more recovered original without a copy.
/// The swap then stands for its original, directories and suffix. Files and recovered originals
/// from before stay, and so do the fence and the retention.
pub proof fn law_adoption(s: SwapView, claim: RecoveryView)
    ensures
        ({
            let next = adopted(s, claim);
            &&& next.files.len() == s.files.len() + 1
            &&& next.files.last() == claim.file
            &&& next.files.drop_last() == s.files
            &&& current_path(next) == Some(claim.file.path)
            &&& next.recovered.len() == s.recovered.len() + 1
            &&& next.recovered.last().original == Some(claim.file)
            &&& next.recovered.last().archive is None
            &&& next.recovered.drop_last() == s.recovered
            &&& next.source_path == claim.source_path && next.source_cwd == claim.source_cwd
            &&& next.directories == claim.directories && next.suffix == claim.suffix
            &&& next.retained_archives == s.retained_archives
            &&& next.last_generation == s.last_generation
            &&& next.closed == s.closed && next.retain_recovered == s.retain_recovered
        }),
{
    assert(adopted(s, claim).files.drop_last() =~= s.files);
    assert(adopted(s, claim).recovered.drop_last() =~= s.recovered);
}

/// Law: the path of a swap is that of the newest file, a new swap owns and remembers nothing, and
/// a lock is needed exactly while an owned file, a recovered original or a copy holds it.
pub proof fn law_what_a_swap_owns(s: SwapView, lock: u64)
    ensures
        current_path(s) is None <==> s.files.len() == 0,
        s.files.len() > 0 ==> current_path(s) == Some(s.files[s.files.len() - 1].path),
        ({
            let new = empty_swap();
            &&& new.files.len() == 0 && new.recovered.len() == 0 && new.retained_archives.len() == 0
            &&& new.source_path is None && new.last_generation is None
            &&& !new.closed && !new.retain_recovered
        }),
        forall|i: int| 0 <= i < s.files.len() ==> holds_lock(s, (#[trigger] s.files[i]).lock),
        forall|i: int|
            0 <= i < s.recovered.len() && (#[trigger] s.recovered[i]).original is Some
                ==> holds_lock(s, s.recovered[i].original->0.lock),
        forall|i: int|
            0 <= i < s.recovered.len() && (#[trigger] s.recovered[i]).archive is Some
                ==> holds_lock(s, s.recovered[i].archive->0.lock),
        holds_lock(s, lock) ==> (exists|i: int|
            0 <= i < s.files.len() && (#[trigger] s.files[i]).lock == lock) || (exists|i: int|
            #![trigger s.recovered[i]]
            0 <= i < s.recovered.len() && ((s.recovered[i].original is Some
                && s.recovered[i].original->0.lock == lock) || (s.recovered[i].archive is Some
                && s.recovered[i].archive->0.lock == lock))),
{
    assert forall|i: int|
        0 <= i < s.recovered.len() && (#[trigger] s.recovered[i]).original is Some implies
        holds_lock(s, s.recovered[i].original->0.lock) by {
        assert(source_holds(s.recovered[i], s.recovered[i].original->0.lock));
    }
    assert forall|i: int|
        0 <= i < s.recovered.len() && (#[trigger] s.recovered[i]).archive is Some implies
        holds_lock(s, s.recovered[i].archive->0.lock) by {
        assert(source_holds(s.recovered[i], s.recovered[i].archive->0.lock));
    }
}

/// After the event the work goes on and asks for this action.
pub open spec fn goes_on(s: SwapView, w: WorkView, event: EventView, action: ActionView) -> bool {
    let next = step_of(s, w, event);
    next.1 matches ProgressView::Continue(work) && action_of(next.0, work) == action && work.plan
        == w.plan
}

/// The event ends the work with this cause, and nothing that is owned changes.
pub open spec fn fails(s: SwapView, w: WorkView, event: EventView, cause: CauseView) -> bool {
    let next = step_of(s, w, event);
    &&& next.0 == s
    &&& next.1 matches ProgressView::Failed(failure)
    &&& failure.cause == cause
    &&& w.plan is Write ==> failure.backups.len() == 0
    &&& w.plan is Close ==> failure.backups == backups_of(s)
}

/// The question whether the path of an owned file names it.
pub open spec fn asks_for(file: OwnedView) -> ActionView {
    ActionView::Check { path: file.path, lock: file.lock }
}

/// Law: a recovered original is copied in this course. The original is seen to be the owned file,
/// its bytes are copied beside it, flushed, the original is seen again, the temporary file is
/// locked and seen to be the locked one, it is published as a backup without replacing anything,
/// seen to be the owned copy, and its directory is synced. Only then is the original let go of.
pub proof fn law_course_of_copying(s: SwapView, w: WorkView, i: usize, lock: u64)
    requires
        work_ok(s, w),
        i < s.recovered.len(),
    ensures
        ({
            let source = s.recovered[i as int];
            let original = source.original->0;
            let archive = source.archive->0;
            let directory = parent_of(original.path)->0;
            let seen = EventView::Checked(Ok(true));
            let done = EventView::Done(Ok(()));
            let backup = joined(directory, archive_name_of(w.name));
            &&& w.stage == Stage::Archive(i, ArchiveStep::Examine) ==> {
                &&& action_of(s, w) == asks_for(original)
                &&& goes_on(
                    s,
                    w,
                    seen,
                    ActionView::CopyOriginal {
                        directory,
                        lock: original.lock,
                        prefix: encode_utf8(".helix-pending-"@),
                        suffix: encode_utf8(".recovered"@),
                    },
                )
            }
            &&& w.stage == Stage::Archive(i, ArchiveStep::Copy) ==> forall|
                name: Seq<u8>,
                length: u64,
                copied: u64,
            |
                #![trigger step_of(s, w, EventView::Copied(Ok((name, length, copied))))]
                {
                    let event = EventView::Copied(Ok((name, length, copied)));
                    &&& length == copied ==> goes_on(s, w, event, ActionView::SyncTemporary)
                    &&& length == copied ==> step_of(s, w, event).1->Continue_0.name == name
                    &&& length != copied ==> fails(
                        s,
                        w,
                        event,
                        CauseView::Fault(FaultView::LengthChanged),
                    )
                }
            &&& w.stage == Stage::Archive(i, ArchiveStep::Flush) ==> action_of(s, w)
                == ActionView::SyncTemporary && goes_on(s, w, done, asks_for(original))
            &&& w.stage == Stage::Archive(i, ArchiveStep::Recheck) ==> action_of(s, w) == asks_for(
                original,
            ) && goes_on(s, w, seen, ActionView::LockTemporary)
            &&& w.stage == Stage::Archive(i, ArchiveStep::Lock) ==> action_of(s, w)
                == ActionView::LockTemporary && goes_on(
                s,
                w,
                EventView::Locked(Ok(lock)),
                ActionView::IdentifyTemporary { lock },
            )
            &&& w.stage == Stage::Archive(i, ArchiveStep::Identify(lock)) ==> goes_on(
                s,
                w,
                seen,
                ActionView::Persist { destination: backup, replace: false },
            )
            &&& w.stage == Stage::Archive(i, ArchiveStep::Persist(lock)) ==> {
                let next = step_of(s, w, done).0;
                &&& action_of(s, w) == (ActionView::Persist { destination: backup, replace: false })
                &&& goes_on(s, w, done, ActionView::Check { path: backup, lock })
                &&& next.recovered[i as int].archive == Some(OwnedView { path: backup, lock })
                &&& next.recovered[i as int].original == source.original
            }
            &&& w.stage == Stage::Archive(i, ArchiveStep::Confirm) ==> action_of(s, w) == asks_for(
                archive,
            ) && goes_on(s, w, seen, ActionView::SyncDirectory(parent_of(archive.path)->0))
            &&& w.stage == Stage::Archive(i, ArchiveStep::Sync) ==> {
                let kept = SourceView { original: None, archive: source.archive };
                let next = SwapView { recovered: s.recovered.update(i as int, kept), ..s };
                &&& action_of(s, w) == ActionView::SyncDirectory(parent_of(archive.path)->0)
                &&& step_of(s, w, done) == enter_archive(next, w.plan, i + 1)
            }
            &&& w.stage == Stage::Archive(i, ArchiveStep::Verify) ==> action_of(s, w) == asks_for(
                archive,
            ) && step_of(s, w, seen) == enter_archive(s, w.plan, i + 1)
        }),
{
    assert(source_ok(s.recovered[i as int]));
}

/// Law: the recovered originals are gone through in order. One that has a copy is entered by the
/// question whether its copy is the owned one, and one without by the question whether it is that
/// itself. Behind the last one a write publishes and a close removes.
pub proof fn law_order_of_copying(s: SwapView, plan: PlanView, i: int)
    requires
        0 <= i <= s.recovered.len() <= usize::MAX,
    ensures
        ({
            let (next, progress) = enter_archive(s, plan, i);
            &&& i < s.recovered.len() ==> {
                let source = s.recovered[i];
                &&& next == s
                &&& progress matches ProgressView::Continue(w)
                &&& w.plan == plan
                &&& w.stage is Archive && w.stage->Archive_0 == i
                &&& source.archive is Some ==> action_of(s, w) == asks_for(source.archive->0)
                &&& source.archive is None && source.original is Some ==> action_of(s, w)
                    == asks_for(source.original->0)
            }
            &&& i == s.recovered.len() && plan is Write ==> (next, progress) == enter_publish(
                s,
                plan->Write_0,
            )
            &&& i == s.recovered.len() && plan is Close ==> (next, progress) == enter_remove(
                s,
                plan,
                s.files.len() as int,
                Seq::empty(),
            )
        }),
{
}

/// Law: a publication starts with the question whether the current file is the owned one, where it
/// is to be replaced, and else with staging in the first directory. Without a directory it fails.
pub proof fn law_start_of_publication(s: SwapView, plan: WritePlanView)
    ensures
        ({
            let (next, progress) = enter_publish(s, plan);
            &&& next == s
            &&& !plan.migrate ==> progress is Continue && action_of(s, progress->Continue_0)
                == asks_for(s.files.last())
            &&& plan.migrate && plan.directories.len() > 0 ==> progress is Continue && (action_of(
                s,
                progress->Continue_0,
            ) matches ActionView::Stage { directory, .. } && directory == plan.directories[0])
            &&& plan.migrate && plan.directories.len() == 0 ==> progress is Failed
                && progress->Failed_0.cause == CauseView::NoUsableDirectory(
                Seq::<TroubleView>::empty(),
            )
        }),
{
}

/// Law: a snapshot is published in this course. It is staged in its directory as a whole file,
/// under the prefix of its original and the configured suffix, flushed, locked and seen to be the
/// locked one. Where it replaces the current file, that one is seen to be the owned file before it
/// is staged and again before it is replaced; else it gets a name of its own and replaces nothing.
/// The published file is the newest owned one, and its directory is synced.
pub proof fn law_course_of_publication(s: SwapView, w: WorkView, k: usize, lock: u64)
    requires
        work_ok(s, w),
        w.plan is Write,
    ensures
        ({
            let plan = w.plan->Write_0;
            let seen = EventView::Checked(Ok(true));
            let done = EventView::Done(Ok(()));
            let directory = if plan.migrate {
                plan.directories[k as int]
            } else {
                parent_of(s.files.last().path)->0
            };
            let target = if plan.migrate {
                joined(directory, published_name_of(w.name))
            } else {
                s.files.last().path
            };
            let persist = ActionView::Persist { destination: target, replace: !plan.migrate };
            &&& w.stage == Stage::Publish(k, PublishStep::Current) ==> action_of(s, w) == asks_for(
                s.files.last(),
            ) && (step_of(s, w, seen).1 matches ProgressView::Continue(next) && next.stage
                == Stage::Publish(k, PublishStep::Stage))
            &&& w.stage == Stage::Publish(k, PublishStep::Stage) ==> {
                &&& action_of(s, w) matches ActionView::Stage {
                    directory: place,
                    create,
                    prefix,
                    suffix,
                    contents,
                }
                &&& place == directory
                &&& create is Some <==> components(directory) == components(plan.state_directory)
                &&& create is Some ==> create->0 == ancestors_of(directory)
                &&& prefix == staging_prefix_of(plan.snapshot.path)
                &&& suffix == encode_utf8(plan.suffix)
                &&& contents == file_image(plan.header, plan.snapshot.text)
                &&& forall|name: Seq<u8>|
                    #![trigger step_of(s, w, EventView::Staged(Ok(name)))]
                    goes_on(s, w, EventView::Staged(Ok(name)), ActionView::SyncTemporary)
                        && step_of(s, w, EventView::Staged(Ok(name))).1->Continue_0.name == name
            }
            &&& w.stage == Stage::Publish(k, PublishStep::Flush) ==> action_of(s, w)
                == ActionView::SyncTemporary && goes_on(s, w, done, ActionView::LockTemporary)
            &&& w.stage == Stage::Publish(k, PublishStep::Lock) ==> action_of(s, w)
                == ActionView::LockTemporary && goes_on(
                s,
                w,
                EventView::Locked(Ok(lock)),
                ActionView::IdentifyTemporary { lock },
            )
            &&& w.stage == Stage::Publish(k, PublishStep::Identify(lock)) && plan.migrate
                ==> goes_on(s, w, seen, persist)
            &&& w.stage == Stage::Publish(k, PublishStep::Identify(lock)) && !plan.migrate
                ==> goes_on(s, w, seen, asks_for(s.files.last()))
            &&& w.stage == Stage::Publish(k, PublishStep::Previous(lock)) ==> action_of(s, w)
                == asks_for(s.files.last()) && goes_on(s, w, seen, persist)
            &&& w.stage == Stage::Publish(k, PublishStep::Persist(lock)) ==> {
                let next = step_of(s, w, done).0;
                &&& action_of(s, w) == persist
                &&& next.files.len() == s.files.len() + (if plan.migrate {
                    1int
                } else {
                    0
                })
                &&& next.files.last() == (OwnedView { path: target, lock })
                &&& next.source_path == plan.snapshot.path
                &&& next.source_cwd == plan.snapshot.cwd
                &&& next.directories == plan.directories && next.suffix == plan.suffix
                &&& next.recovered == s.recovered
                &&& next.retained_archives == s.retained_archives
                &&& goes_on(s, w, done, ActionView::SyncDirectory(parent_of(target)->0))
            }
        }),
{
}

/// Law: a file is removed in this course. One that is not there any more needs only its directory
/// synced. One that is there is seen to be the owned file, unlinked, and its directory is synced.
pub proof fn law_course_of_removal(s: SwapView, w: WorkView)
    requires
        work_ok(s, w),
    ensures
        ({
            let file = match w.stage {
                Stage::Remove(i, _) => s.files[i - 1],
                _ => s.recovered.last().archive->0,
            };
            let step = match w.stage {
                Stage::Remove(_, step) => step,
                Stage::Retire(step) => step,
                _ => RemoveStep::Sync,
            };
            let sync = ActionView::SyncDirectory(parent_of(file.path)->0);
            w.stage is Remove || w.stage is Retire ==> {
                &&& step is Inspect ==> {
                    &&& action_of(s, w) == ActionView::Inspect(file.path)
                    &&& goes_on(s, w, EventView::Inspected(Ok(true)), asks_for(file))
                    &&& goes_on(s, w, EventView::Inspected(Ok(false)), sync)
                }
                &&& step is Check ==> {
                    &&& action_of(s, w) == asks_for(file)
                    &&& goes_on(s, w, EventView::Checked(Ok(true)), ActionView::Unlink(file.path))
                }
                &&& step is Unlink ==> {
                    &&& action_of(s, w) == ActionView::Unlink(file.path)
                    &&& goes_on(s, w, EventView::Done(Ok(())), sync)
                }
                &&& step is Sync ==> action_of(s, w) == sync
            }
        }),
{
}

/// Law: files are removed from the newest on that is to go, and the next one is entered once a
/// directory was synced, or once something went wrong with one, which is noted with its path.
/// Behind the last one everything that went wrong is told; else a write has written the newest
/// file, and a close goes on to the copies.
pub proof fn law_order_of_removal(
    s: SwapView,
    plan: PlanView,
    end: int,
    troubles: Seq<TroubleView>,
)
    requires
        0 <= end <= s.files.len() <= usize::MAX,
    ensures
        ({
            let (next, progress) = enter_remove(s, plan, end, troubles);
            &&& end > 0 ==> {
                &&& next == s
                &&& progress matches ProgressView::Continue(w)
                &&& w.plan == plan && w.troubles == troubles
                &&& action_of(s, w) == ActionView::Inspect(s.files[end - 1].path)
            }
            &&& end == 0 && troubles.len() > 0 ==> next == s && progress is Failed
                && progress->Failed_0.cause == CauseView::Cleanup(troubles)
            &&& end == 0 && troubles.len() == 0 && plan is Write ==> next == s && progress
                == ProgressView::Written(s.files.last().path)
            &&& end == 0 && troubles.len() == 0 && plan is Close ==> (next, progress)
                == enter_retire(s)
        }),
{
}

/// Law: a file that was removed is not owned any more, and the others stay in order; a copy that
/// was removed is the last one.
pub proof fn law_removed_files_are_let_go(s: SwapView, w: WorkView)
    requires
        work_ok(s, w),
    ensures
        ({
            let done = EventView::Done(Ok(()));
            &&& w.stage matches Stage::Remove(i, RemoveStep::Sync) ==> step_of(s, w, done)
                == enter_remove(
                SwapView { files: s.files.remove(i - 1), ..s },
                w.plan,
                i - 1,
                w.troubles,
            )
            &&& w.stage matches Stage::Retire(RemoveStep::Sync) ==> step_of(s, w, done)
                == enter_retire(SwapView { recovered: s.recovered.drop_last(), ..s })
            &&& w.stage is Settle ==> step_of(s, w, done) == enter_remove(
                s,
                w.plan,
                s.files.len() - 1,
                Seq::empty(),
            )
        }),
{
}

/// What an event says went wrong, for a question about an owned or about a temporary file.
pub open spec fn told(event: EventView, temporary: bool) -> Option<FaultView> {
    match event {
        EventView::Checked(Ok(false)) => Some(
            if temporary {
                FaultView::TemporaryReplaced
            } else {
                FaultView::Replaced
            },
        ),
        EventView::Checked(Err(detail)) => Some(FaultView::System(detail)),
        EventView::Inspected(Err(detail)) => Some(FaultView::System(detail)),
        EventView::Copied(Err(detail)) => Some(FaultView::System(detail)),
        EventView::Staged(Err(detail)) => Some(FaultView::System(detail)),
        EventView::Locked(Err(detail)) => Some(FaultView::Lock(detail)),
        EventView::Done(Err(detail)) => Some(FaultView::System(detail)),
        _ => None,
    }
}

/// Law: what goes wrong is told as it is. While originals are copied it ends the work; a directory
/// of a copy that cannot be synced is told with the copy's path. A publication that replaces the
/// current file fails by it, and one in a list of directories goes on in the next, noting the
/// directory, until the last one has failed. A directory of the published file that cannot be
/// synced is told with the file's path. A removal notes the file and goes on, and that of a copy
/// fails.
#[verifier::rlimit(30)]
pub proof fn law_failures_are_told(s: SwapView, w: WorkView, event: EventView)
    requires
        work_ok(s, w),
        admitted(action_of(s, w), event),
        told(event, action_of(s, w) is IdentifyTemporary) is Some,
    ensures
        ({
            let fault = told(event, action_of(s, w) is IdentifyTemporary)->0;
            let next = step_of(s, w, event);
            match w.stage {
                Stage::Archive(i, step) => if step is Sync {
                    fails(
                        s,
                        w,
                        event,
                        CauseView::SyncArchive(
                            s.recovered[i as int].archive->0.path,
                            event->Done_0->Err_0,
                        ),
                    )
                } else {
                    fails(s, w, event, CauseView::Fault(fault))
                },
                Stage::Publish(k, _) => {
                    let plan = w.plan->Write_0;
                    let noted = w.troubles.push(
                        TroubleView { path: plan.directories[k as int], fault },
                    );
                    &&& !plan.migrate ==> fails(s, w, event, CauseView::Fault(fault))
                    &&& plan.migrate && k + 1 == plan.directories.len() ==> fails(
                        s,
                        w,
                        event,
                        CauseView::NoUsableDirectory(noted),
                    )
                    &&& plan.migrate && k + 1 < plan.directories.len() ==> {
                        &&& next.0 == s
                        &&& next.1 matches ProgressView::Continue(work)
                        &&& work.plan == w.plan && work.troubles == noted
                        &&& work.stage == Stage::Publish((k + 1) as usize, PublishStep::Stage)
                        &&& action_of(s, work) matches ActionView::Stage { directory, .. }
                        &&& directory == plan.directories[k + 1]
                    }
                },
                Stage::Settle => fails(
                    s,
                    w,
                    event,
                    CauseView::SyncPublished(s.files.last().path, event->Done_0->Err_0),
                ),
                Stage::Remove(i, _) => next == enter_remove(
                    s,
                    w.plan,
                    i - 1,
                    w.troubles.push(TroubleView { path: s.files[i - 1].path, fault }),
                ),
                Stage::Retire(_) => fails(s, w, event, CauseView::Fault(fault)),
            }
        }),
{
}

/// Law: the backups that a failed close tells are those of the copies in their order, followed by
/// those that were retained before.
pub proof fn law_backups_that_are_told(s: SwapView)
    requires
        forall|i: int| 0 <= i < s.recovered.len() ==> (#[trigger] s.recovered[i]).archive is Some,
    ensures
        backups_of(s).len() == s.recovered.len() + s.retained_archives.len(),
        forall|i: int|
            #![trigger s.recovered[i]]
            0 <= i < s.recovered.len() ==> backups_of(s)[i] == s.recovered[i].archive->0.path,
        backups_of(s).skip(s.recovered.len() as int) == s.retained_archives,
{
    lemma_archive_paths(s.recovered);
    assert(backups_of(s).skip(s.recovered.len() as int) =~= s.retained_archives);
}

proof fn lemma_archive_paths(recovered: Seq<SourceView>)
    requires
        forall|i: int| 0 <= i < recovered.len() ==> (#[trigger] recovered[i]).archive is Some,
    ensures
        archive_paths(recovered).len() == recovered.len(),
        forall|i: int|
            #![trigger recovered[i]]
            0 <= i < recovered.len() ==> archive_paths(recovered)[i]
                == recovered[i].archive->0.path,
    decreases recovered.len(),
{
    if recovered.len() > 0 {
        let front = recovered.drop_last();
        assert forall|i: int| 0 <= i < front.len() implies (#[trigger] front[i]).archive
            is Some by {
            assert(front[i] == recovered[i]);
        }
        lemma_archive_paths(front);
        assert forall|i: int| #![trigger recovered[i]] 0 <= i < recovered.len() implies
            archive_paths(recovered)[i] == recovered[i].archive->0.path by {
            if i < front.len() {
                assert(front[i] == recovered[i]);
            }
        }
    }
}

/// Law: a close shuts the swap and changes nothing else of it before the first action. One that
/// retains copies first what has no copy yet; one that does not goes straight to the removal.
pub proof fn law_start_of_a_close(s: SwapView, retain: bool)
    requires
        s.files.len() <= usize::MAX,
        s.recovered.len() <= usize::MAX,
    ensures
        ({
            let keeps = if s.closed {
                s.retain_recovered
            } else {
                retain
            };
            let (next, progress) = closing(s, retain);
            &&& shut(s, retain) == (SwapView { closed: true, retain_recovered: keeps, ..s })
            &&& keeps && s.recovered.len() > 0 ==> {
                &&& next == shut(s, retain)
                &&& progress matches ProgressView::Continue(w)
                &&& w.plan is Close && w.stage is Archive && w.stage->Archive_0 == 0
            }
            &&& (!keeps || s.recovered.len() == 0) && s.files.len() > 0 ==> {
                &&& next == shut(s, retain)
                &&& progress matches ProgressView::Continue(w)
                &&& action_of(next, w) == ActionView::Inspect(s.files.last().path)
            }
            &&& s.files.len() == 0 && s.recovered.len() == 0 ==> progress == ProgressView::Closed(
                s.retained_archives,
            )
        }),
{
    if s.files.len() == 0 && s.recovered.len() == 0 {
        assert(s.retained_archives + released_paths(s.recovered)
            =~= s.retained_archives);
    }
}

/// Law: a close that retains lets go of all copies at once and tells them behind those from before.
/// One that does not removes them from the last on, passing over originals without a copy, and
/// ends when none is left.
pub proof fn law_letting_go_of_copies(s: SwapView)
    ensures
        ({
            let (next, progress) = enter_retire(s);
            &&& s.retain_recovered ==> {
                &&& next.recovered.len() == 0
                &&& progress == ProgressView::Closed(
                    s.retained_archives + released_paths(s.recovered),
                )
                &&& next == (SwapView {
                    recovered: Seq::empty(),
                    retained_archives: s.retained_archives + released_paths(s.recovered),
                    ..s
                })
            }
            &&& !s.retain_recovered ==> next == (SwapView { recovered: next.recovered, ..s })
            &&& !s.retain_recovered && s.recovered.len() == 0 ==> progress == ProgressView::Closed(
                s.retained_archives,
            )
            &&& !s.retain_recovered && s.recovered.len() > 0 && s.recovered.last().archive is Some
                ==> next == s && progress is Continue && action_of(s, progress->Continue_0)
                == ActionView::Inspect(s.recovered.last().archive->0.path)
            &&& !s.retain_recovered && s.recovered.len() > 0 && s.recovered.last().archive is None
                ==> enter_retire(s) == enter_retire(
                SwapView { recovered: s.recovered.drop_last(), ..s },
            )
        }),
{
}

/// Law: an event fits an action exactly when it answers it. The name of a file that was staged or
/// copied begins with the pending prefix and holds no separator.
pub proof fn law_events_that_fit(action: ActionView, event: EventView)
    ensures
        ({
            let pending = encode_utf8(".helix-pending-"@);
            let plain = |name: Seq<u8>|
                name.len() >= pending.len() && name.take(pending.len() as int) == pending
                    && !name.contains(47u8);
            admitted(action, event) <==> match event {
                EventView::Checked(_) => action is Check || action is IdentifyTemporary,
                EventView::Inspected(_) => action is Inspect,
                EventView::Copied(r) => action is CopyOriginal && (r is Ok ==> plain(r->Ok_0.0)),
                EventView::Staged(r) => action is Stage && (r is Ok ==> plain(r->Ok_0)),
                EventView::Locked(_) => action is LockTemporary,
                EventView::Done(_) => action is SyncTemporary || action is Persist
                    || action is SyncDirectory || action is Unlink,
            }
        }),
{
}

/// Law: a recovered file adds its copy to the backups that are told, in order, and an original
/// without a copy adds nothing.
pub proof fn law_only_copies_are_backups(recovered: Seq<SourceView>, source: SourceView)
    ensures
        archive_paths(Seq::empty()).len() == 0,
        source.archive is None ==> archive_paths(recovered.push(source)) == archive_paths(
            recovered,
        ),
        source.archive matches Some(copy) ==> archive_paths(recovered.push(source))
            == archive_paths(recovered).push(copy.path),
        released_paths(Seq::empty()).len() == 0,
        source.archive is None ==> released_paths(recovered.push(source)) == released_paths(
            recovered,
        ),
        source.archive matches Some(copy) ==> released_paths(recovered.push(source)) == seq![
            copy.path,
        ] + released_paths(recovered),
{
    assert(recovered.push(source).drop_last() =~= recovered);
}

} // verus!
